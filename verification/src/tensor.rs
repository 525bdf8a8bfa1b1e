//! The N-dimensional tensor: a typed, shape-aware view over a flat,
//! reference-counted element buffer.
//!
//! A tensor either exclusively owns its buffer or shares it with the
//! tensors it was carved from (or that were carved from it).  Reads are
//! always permitted; in-place mutation requires exclusive ownership of the
//! buffer and otherwise fails with `ModifyingSharedTensorBuffer`.  Once
//! every other holder has been dropped, the remaining tensor regains the
//! right to mutate.

use std::rc::Rc;

use vstd::prelude::*;

use crate::common::{
    ElementWise, ElementWiseOperations, Numeric, PairWise, TensorBounds, TensorError, TensorIndex,
    TensorResult,
};
use vstd::arithmetic::div_mod::lemma_fundamental_div_mod_converse;

use crate::tensor_shape::{
    bounds_fit, flatten_index, lemma_flatten_2, lemma_flatten_concat, lemma_flatten_in_range,
    lemma_flatten_le, lemma_product_1, lemma_product_2, seq_product, shape_count, valid_index,
    valid_prefix, TensorShape,
};

verus! {

/// An N-dimensional view over a shared flat buffer.
pub struct Tensor<T> {
    buffer_ref: Rc<Vec<T>>,
    shape: TensorShape,
}

impl<T: Copy> Tensor<T> {
    /// The axis bounds of this tensor, outer axis first.
    pub closed spec fn bounds(&self) -> Seq<usize> {
        self.shape.bounds()
    }

    /// The whole backing buffer, which may extend beyond this view and may
    /// be shared with other tensors.
    pub closed spec fn storage(&self) -> Seq<T> {
        self.buffer_ref@
    }

    /// The absolute position of this view's first element in the backing
    /// buffer.
    pub closed spec fn offset(&self) -> nat {
        self.shape.offset()
    }

    /// The elements this tensor addresses, in row-major order.
    pub open spec fn elems(&self) -> Seq<T> {
        self.storage().subrange(
            self.offset() as int,
            self.offset() + shape_count(self.bounds()) as int,
        )
    }

    /// The element a valid index addresses.
    pub open spec fn value_at(&self, index: Seq<usize>) -> T {
        self.elems()[flatten_index(self.bounds(), index) as int]
    }

    /// The shape is well-formed and the addressed range lies inside the
    /// backing buffer.
    pub closed spec fn wf(&self) -> bool {
        &&& self.shape.wf()
        &&& self.offset() + shape_count(self.bounds()) <= self.storage().len()
    }

    /// Allocates a fresh, exclusively owned tensor with the given bounds,
    /// every element set to `value`.
    pub fn new(shape: TensorBounds, value: T) -> (r: Self)
        requires
            bounds_fit(shape@),
        ensures
            r.wf(),
            r.bounds() == shape@,
            r.elems().len() == shape_count(shape@),
            forall|i: int| 0 <= i < r.elems().len() ==> r.elems()[i] == value,
    {
        let ts = TensorShape::new(shape);
        let count = ts.count();
        let mut buf: Vec<T> = Vec::new();
        let mut i: usize = 0;
        while i < count
            invariant
                i <= count,
                buf@.len() == i,
                forall|j: int| 0 <= j < i ==> buf@[j] == value,
            decreases count - i,
        {
            buf.push(value);
            i = i + 1;
        }
        let r = Tensor { buffer_ref: Rc::new(buf), shape: ts };
        proof {
            assert(r.elems() =~= r.storage());
        }
        r
    }

    /// Assembles a tensor from a fully built row-major buffer and its
    /// bounds; the result exclusively owns the buffer.
    pub(crate) fn from_parts(buf: Vec<T>, bounds: TensorBounds) -> (r: Self)
        requires
            bounds_fit(bounds@),
            buf@.len() == shape_count(bounds@),
        ensures
            r.wf(),
            r.bounds() == bounds@,
            r.offset() == 0,
            r.elems() == buf@,
    {
        let shape = TensorShape::new(bounds);
        let r = Tensor { buffer_ref: Rc::new(buf), shape };
        proof {
            assert(r.elems() =~= r.storage());
        }
        r
    }

    /// Bounds-checked read of the element at `index`.
    pub fn get(&self, index: &TensorIndex) -> (r: TensorResult<T>)
        requires
            self.wf(),
        ensures
            match r {
                Ok(v) => valid_index(self.bounds(), index@) && v == self.value_at(index@),
                Err(e) => {
                    &&& e == TensorError::IndexOutOfBounds
                    &&& !valid_index(self.bounds(), index@)
                },
            },
    {
        if self.shape.is_valid_index(index) {
            Ok(self.get_unchecked(index))
        } else {
            Err(TensorError::IndexOutOfBounds)
        }
    }

    /// Unchecked read: the caller must have validated `index`.
    pub fn get_unchecked(&self, index: &TensorIndex) -> (r: T)
        requires
            self.wf(),
            valid_index(self.bounds(), index@),
        ensures
            r == self.value_at(index@),
    {
        let buf_idx = self.shape.buffer_index(index);
        let (beg, _end) = self.shape.absolute_bounds();
        proof {
            lemma_flatten_in_range(self.bounds(), index@);
        }
        let buf: &Vec<T> = &self.buffer_ref;
        buf[beg + buf_idx]
    }

    /// Removes the backing buffer from `self` if it is exclusively owned,
    /// leaving a placeholder; otherwise leaves `self` untouched.
    fn take_buffer(&mut self) -> (r: Option<Vec<T>>)
        ensures
            final(self).shape == old(self).shape,
            match r {
                Some(buf) => buf@ == old(self).storage(),
                None => *final(self) == *old(self),
            },
    {
        let mut taken: Rc<Vec<T>> = Rc::new(Vec::new());
        core::mem::swap(&mut taken, &mut self.buffer_ref);
        match Rc::try_unwrap(taken) {
            Ok(buf) => Some(buf),
            Err(rc) => {
                self.buffer_ref = rc;
                None
            },
        }
    }

    /// Bounds-checked write of `value` at `index`, permitted only while
    /// this tensor exclusively owns its buffer.
    pub fn set(&mut self, index: &TensorIndex, value: T) -> (r: TensorResult<()>)
        requires
            old(self).wf(),
        ensures
            final(self).wf(),
            final(self).bounds() == old(self).bounds(),
            final(self).offset() == old(self).offset(),
            final(self).storage().len() == old(self).storage().len(),
            match r {
                Ok(()) => {
                    &&& valid_index(old(self).bounds(), index@)
                    &&& final(self).storage() == old(self).storage().update(
                        (old(self).offset() + flatten_index(old(self).bounds(), index@)) as int,
                        value,
                    )
                    &&& final(self).elems() == old(self).elems().update(
                        flatten_index(old(self).bounds(), index@) as int,
                        value,
                    )
                },
                Err(e) => {
                    &&& *final(self) == *old(self)
                    &&& (e == TensorError::IndexOutOfBounds && !valid_index(
                        old(self).bounds(),
                        index@,
                    )) || (e == TensorError::ModifyingSharedTensorBuffer && valid_index(
                        old(self).bounds(),
                        index@,
                    ))
                },
            },
    {
        if !self.shape.is_valid_index(index) {
            return Err(TensorError::IndexOutOfBounds);
        }
        self.set_unchecked(index, value)
    }

    /// Unchecked write: the caller must have validated `index`.  Still
    /// fails when the buffer is shared, since mutating it would be visible
    /// through every sibling view.
    pub fn set_unchecked(&mut self, index: &TensorIndex, value: T) -> (r: TensorResult<()>)
        requires
            old(self).wf(),
            valid_index(old(self).bounds(), index@),
        ensures
            final(self).wf(),
            final(self).bounds() == old(self).bounds(),
            final(self).offset() == old(self).offset(),
            final(self).storage().len() == old(self).storage().len(),
            match r {
                Ok(()) => {
                    &&& final(self).storage() == old(self).storage().update(
                        (old(self).offset() + flatten_index(old(self).bounds(), index@)) as int,
                        value,
                    )
                    &&& final(self).elems() == old(self).elems().update(
                        flatten_index(old(self).bounds(), index@) as int,
                        value,
                    )
                },
                Err(e) => {
                    &&& *final(self) == *old(self)
                    &&& e == TensorError::ModifyingSharedTensorBuffer
                },
            },
    {
        let buf_idx = self.shape.buffer_index(index);
        let (beg, _end) = self.shape.absolute_bounds();
        proof {
            lemma_flatten_in_range(self.bounds(), index@);
        }
        match self.take_buffer() {
            Some(mut buf) => {
                buf[beg + buf_idx] = value;
                self.buffer_ref = Rc::new(buf);
                proof {
                    assert(final(self).elems() =~= old(self).elems().update(
                        flatten_index(old(self).bounds(), index@) as int,
                        value,
                    ));
                }
                Ok(())
            },
            None => Err(TensorError::ModifyingSharedTensorBuffer),
        }
    }

    /// The addressed elements in row-major order, as a fresh vector.
    /// (A borrowing iterator cannot carry a contract, so traversal goes
    /// through a copy.)
    pub fn iter(&self) -> (r: Vec<T>)
        requires
            self.wf(),
        ensures
            r@ == self.elems(),
    {
        let (beg, end) = self.shape.absolute_bounds();
        let mut out: Vec<T> = Vec::new();
        let mut i: usize = beg;
        while i < end
            invariant
                self.wf(),
                beg <= i <= end,
                beg == self.offset(),
                end == self.offset() + shape_count(self.bounds()),
                end <= self.storage().len(),
                out@.len() == i - beg,
                forall|j: int| 0 <= j < out@.len() ==> out@[j] == self.elems()[j],
            decreases end - i,
        {
            let buf: &Vec<T> = &self.buffer_ref;
            out.push(buf[i]);
            i = i + 1;
        }
        proof {
            assert(out@ =~= self.elems());
        }
        out
    }

    /// Carves out the sub-tensor selected by the leading index `index`.
    /// The result aliases this tensor's buffer — it is a view, not a copy —
    /// and covers the trailing axes that `index` leaves.  Fails with
    /// `IncorrectShape` when no trailing axis would remain.
    pub fn nested_tensor(&self, index: &TensorIndex) -> (r: TensorResult<Self>)
        requires
            self.wf(),
            index@.len() < self.bounds().len() ==> valid_prefix(self.bounds(), index@),
        ensures
            match r {
                Ok(t) => {
                    &&& index@.len() < self.bounds().len()
                    &&& t.wf()
                    &&& t.bounds() == self.bounds().skip(index@.len() as int)
                    &&& t.storage() == self.storage()
                    &&& t.offset() == self.offset() + flatten_index(self.bounds(), index@)
                    &&& forall|rest: Seq<usize>|
                        valid_index(t.bounds(), rest) ==> #[trigger] t.value_at(rest)
                            == self.value_at(index@ + rest)
                },
                Err(e) => {
                    &&& e == TensorError::IncorrectShape
                    &&& index@.len() >= self.bounds().len()
                },
            },
    {
        match self.shape.nested_shape(index) {
            Ok(s) => {
                let t = Tensor { buffer_ref: rc_clone(&self.buffer_ref), shape: s };
                proof {
                    lemma_flatten_le(self.bounds(), index@);
                    assert forall|rest: Seq<usize>| valid_index(t.bounds(), rest) implies #[trigger] t.value_at(
                        rest,
                    ) == self.value_at(index@ + rest) by {
                        lemma_flatten_concat(self.bounds(), index@, rest);
                        lemma_flatten_in_range(t.bounds(), rest);
                        assert(valid_index(self.bounds(), index@ + rest)) by {
                            assert(forall|k: int|
                                0 <= k < rest.len() ==> (index@ + rest)[index@.len() + k]
                                    == rest[k]);
                            assert(forall|k: int|
                                0 <= k < index@.len() ==> (index@ + rest)[k] == index@[k]);
                            assert(forall|k: int|
                                0 <= k < rest.len() ==> rest[k] < t.bounds()[k] && t.bounds()[k]
                                    == self.bounds()[index@.len() + k]);
                        }
                        lemma_flatten_in_range(self.bounds(), index@ + rest);
                    }
                }
                Ok(t)
            },
            Err(e) => Err(e),
        }
    }
}

/// The dot product of the first `k` entries of `a` and `b`, accumulated
/// left to right with the element type's own multiplication and addition.
pub open spec fn dot_partial<T: Numeric>(a: Seq<T>, b: Seq<T>, k: int) -> T
    decreases k,
{
    if k <= 1 {
        a[0].mul_spec(b[0])
    } else {
        dot_partial(a, b, k - 1).add_spec(a[k - 1].mul_spec(b[k - 1]))
    }
}

/// The dot product of `a` and `b` over the whole of `a`.
pub open spec fn dot_spec<T: Numeric>(a: Seq<T>, b: Seq<T>) -> T {
    dot_partial(a, b, a.len() as int)
}

/// Every multiplication and running addition in the first `k` steps of the
/// dot product of `a` and `b` is defined (e.g. free of overflow).
pub open spec fn dot_ok<T: Numeric>(a: Seq<T>, b: Seq<T>, k: int) -> bool
    decreases k,
{
    if k <= 1 {
        a[0].mul_ok(b[0])
    } else {
        &&& dot_ok(a, b, k - 1)
        &&& a[k - 1].mul_ok(b[k - 1])
        &&& dot_partial(a, b, k - 1).add_ok(a[k - 1].mul_spec(b[k - 1]))
    }
}

/// A defined dot product of `k` steps is defined for every shorter prefix.
proof fn lemma_dot_ok_prefix<T: Numeric>(a: Seq<T>, b: Seq<T>, j: int, k: int)
    requires
        1 <= j <= k,
        dot_ok(a, b, k),
    ensures
        dot_ok(a, b, j),
    decreases k,
{
    if j < k {
        lemma_dot_ok_prefix(a, b, j, k - 1);
    }
}

/// Two rank-2 tensors can be matrix-multiplied: the left operand's column
/// count matches the right operand's row count, and the shared dimension is
/// not empty.
pub open spec fn product_compatible<T: Copy>(a: &Tensor<T>, b: &Tensor<T>) -> bool {
    &&& a.bounds().len() == 2
    &&& b.bounds().len() == 2
    &&& a.bounds()[1] == b.bounds()[0]
    &&& a.bounds()[1] > 0
}

/// Row `i` of a rank-2 tensor, as a sequence.
pub open spec fn row_seq<T: Copy>(a: &Tensor<T>, i: int) -> Seq<T> {
    Seq::new(a.bounds()[1] as nat, |j: int| a.value_at(seq![i as usize, j as usize]))
}

/// Column `j` of a rank-2 tensor, as a sequence.
pub open spec fn col_seq<T: Copy>(b: &Tensor<T>, j: int) -> Seq<T> {
    Seq::new(b.bounds()[0] as nat, |i: int| b.value_at(seq![i as usize, j as usize]))
}

impl<T: Copy + Numeric> Tensor<T> {
    /// The matrix product of two rank-2 tensors: entry `[i, k]` of the
    /// result is the dot product of row `i` of `self` and column `k` of
    /// `other`.  The result is a fresh, exclusively owned tensor.  Fails
    /// with `IncompatibleTensorShapes` when either operand is not rank-2 or
    /// the shared dimension does not match (or is empty).
    pub fn product2d(&self, other: &Tensor<T>) -> (r: TensorResult<Tensor<T>>)
        requires
            self.wf(),
            other.wf(),
            product_compatible(self, other) ==> (self.bounds()[0] as int) * (
            other.bounds()[1] as int) <= usize::MAX,
            product_compatible(self, other) ==> forall|i: int, k: int|
                0 <= i < self.bounds()[0] && 0 <= k < other.bounds()[1] ==> #[trigger] dot_ok(
                    row_seq(self, i),
                    col_seq(other, k),
                    self.bounds()[1] as int,
                ),
        ensures
            match r {
                Ok(t) => {
                    &&& product_compatible(self, other)
                    &&& t.wf()
                    &&& t.bounds() == seq![
                        self.bounds()[0] as usize,
                        other.bounds()[1] as usize,
                    ]
                    &&& forall|i: int, k: int|
                        0 <= i < self.bounds()[0] && 0 <= k < other.bounds()[1] ==> t.value_at(
                            seq![i as usize, k as usize],
                        ) == #[trigger] dot_spec(row_seq(self, i), col_seq(other, k))
                },
                Err(e) => {
                    &&& e == TensorError::IncompatibleTensorShapes
                    &&& !product_compatible(self, other)
                },
            },
    {
        if self.shape.rank() != 2 || other.shape.rank() != 2 {
            return Err(TensorError::IncompatibleTensorShapes);
        }
        let m = self.shape.dim(0);
        let n = self.shape.dim(1);
        let p = other.shape.dim(1);
        if n != other.shape.dim(0) || n == 0 {
            return Err(TensorError::IncompatibleTensorShapes);
        }
        let mut buf: Vec<T> = Vec::new();
        let mut i: usize = 0;
        while i < m
            invariant
                self.wf(),
                other.wf(),
                product_compatible(self, other),
                m == self.bounds()[0],
                n == self.bounds()[1],
                n == other.bounds()[0],
                p == other.bounds()[1],
                n > 0,
                (m as int) * (p as int) <= usize::MAX,
                forall|i0: int, k0: int|
                    0 <= i0 < m && 0 <= k0 < p ==> #[trigger] dot_ok(
                        row_seq(self, i0),
                        col_seq(other, k0),
                        n as int,
                    ),
                i <= m,
                buf@.len() == i * p,
                forall|q: int|
                    0 <= q < buf@.len() ==> #[trigger] buf@[q] == dot_spec(
                        row_seq(self, q / (p as int)),
                        col_seq(other, q % (p as int)),
                    ),
            decreases m - i,
        {
            let mut k: usize = 0;
            proof {
                assert((i + 1) * p <= m * p) by (nonlinear_arith)
                    requires
                        i < m && p >= 0,
                ;
                assert(i * p + p == (i + 1) * p) by (nonlinear_arith);
            }
            while k < p
                invariant
                    self.wf(),
                    other.wf(),
                    product_compatible(self, other),
                    m == self.bounds()[0],
                    n == self.bounds()[1],
                    n == other.bounds()[0],
                    p == other.bounds()[1],
                    n > 0,
                    i < m,
                    k <= p,
                    forall|i0: int, k0: int|
                        0 <= i0 < m && 0 <= k0 < p ==> #[trigger] dot_ok(
                            row_seq(self, i0),
                            col_seq(other, k0),
                            n as int,
                        ),
                    buf@.len() == i * p + k,
                    i * p + p <= m * p,
                    forall|q: int|
                        0 <= q < buf@.len() ==> #[trigger] buf@[q] == dot_spec(
                            row_seq(self, q / (p as int)),
                            col_seq(other, q % (p as int)),
                        ),
                decreases p - k,
            {
                let ghost row = row_seq(self, i as int);
                let ghost col = col_seq(other, k as int);
                proof {
                    assert(dot_ok(row, col, n as int));
                    lemma_dot_ok_prefix(row, col, 1, n as int);
                }
                let a0 = self.get_unchecked(&vec![i, 0usize]);
                let b0 = other.get_unchecked(&vec![0usize, k]);
                proof {
                    assert(a0 == row[0] && b0 == col[0]);
                }
                let mut acc: T = a0.mul_value(b0);
                let mut j: usize = 1;
                while j < n
                    invariant
                        self.wf(),
                        other.wf(),
                        product_compatible(self, other),
                        m == self.bounds()[0],
                        n == self.bounds()[1],
                        n == other.bounds()[0],
                        p == other.bounds()[1],
                        i < m,
                        k < p,
                        1 <= j <= n,
                        row == row_seq(self, i as int),
                        col == col_seq(other, k as int),
                        dot_ok(row, col, n as int),
                        acc == dot_partial(row, col, j as int),
                    decreases n - j,
                {
                    proof {
                        lemma_dot_ok_prefix(row, col, j + 1, n as int);
                    }
                    let a = self.get_unchecked(&vec![i, j]);
                    let b = other.get_unchecked(&vec![j, k]);
                    proof {
                        assert(a == row[j as int] && b == col[j as int]);
                    }
                    acc = acc.add_value(a.mul_value(b));
                    j = j + 1;
                }
                buf.push(acc);
                proof {
                    assert(acc == dot_spec(row, col));
                    lemma_fundamental_div_mod_converse(
                        (i * p + k) as int,
                        p as int,
                        i as int,
                        k as int,
                    );
                }
                k = k + 1;
            }
            i = i + 1;
        }
        let mut bounds: Vec<usize> = Vec::new();
        bounds.push(m);
        bounds.push(p);
        proof {
            assert(bounds@ =~= seq![m, p]);
            lemma_product_1(p);
            lemma_product_2(m, p);
            assert forall|k0: int| 0 <= k0 <= bounds@.len() implies #[trigger] seq_product(
                bounds@.skip(k0),
            ) <= usize::MAX by {
                if k0 == 0 {
                    assert(bounds@.skip(0) =~= seq![m, p]);
                } else if k0 == 1 {
                    assert(bounds@.skip(1) =~= seq![p]);
                } else {
                    assert(bounds@.skip(2) =~= Seq::<usize>::empty());
                    assert(seq_product(Seq::<usize>::empty()) == 1);
                }
            }
        }
        let t = Self::from_parts(buf, bounds);
        proof {
            assert forall|i0: int, k0: int|
                0 <= i0 < self.bounds()[0] && 0 <= k0 < other.bounds()[1] implies t.value_at(
                seq![i0 as usize, k0 as usize],
            ) == #[trigger] dot_spec(row_seq(self, i0), col_seq(other, k0)) by {
                lemma_flatten_2(m, p, i0 as usize, k0 as usize);
                assert(0 <= i0 * (p as int) + k0 < (m as int) * (p as int)) by (nonlinear_arith)
                    requires
                        0 <= i0 < m as int && 0 <= k0 < p as int,
                ;
                let q = i0 * (p as int) + k0;
                assert(buf@.len() == (m as int) * (p as int));
                lemma_fundamental_div_mod_converse(q, p as int, i0, k0);
                assert(t.elems()[q] == buf@[q]);
            }
        }
        Ok(t)
    }
}

impl<T: Copy> ElementWise<T> for Tensor<T> {
    open spec fn view_elems(&self) -> Seq<T> {
        self.elems()
    }

    open spec fn view_bounds(&self) -> Seq<usize> {
        self.bounds()
    }

    open spec fn view_wf(&self) -> bool {
        self.wf()
    }

    fn element_wise<F: Fn(T) -> T>(&mut self, func: F) -> (r: TensorResult<()>) {
        proof {
            assert forall|k: int| 0 <= k < old(self).elems().len() implies call_requires(
                func,
                (old(self).elems()[k],),
            ) by {
                assert(old(self).view_elems()[k] == old(self).elems()[k]);
            }
        }
        let (beg, end) = self.shape.absolute_bounds();
        match self.take_buffer() {
            Some(mut buf) => {
                let mut i: usize = beg;
                while i < end
                    invariant
                        old(self).wf(),
                        beg <= i <= end,
                        end <= buf@.len(),
                        buf@.len() == old(self).storage().len(),
                        beg == old(self).offset(),
                        end == old(self).offset() + shape_count(old(self).bounds()),
                        forall|j: int|
                            0 <= j < buf@.len() && !(beg <= j < i) ==> buf@[j] == old(
                                self,
                            ).storage()[j],
                        forall|j: int|
                            beg <= j < i ==> call_ensures(
                                func,
                                (old(self).storage()[j],),
                                #[trigger] buf@[j],
                            ),
                        forall|k: int|
                            0 <= k < old(self).elems().len() ==> call_requires(
                                func,
                                (old(self).elems()[k],),
                            ),
                    decreases end - i,
                {
                    let x = buf[i];
                    proof {
                        assert(old(self).elems()[i - beg] == old(self).storage()[i as int]);
                    }
                    let y = func(x);
                    buf[i] = y;
                    i = i + 1;
                }
                self.buffer_ref = Rc::new(buf);
                proof {
                    assert forall|k: int| 0 <= k < old(self).elems().len() implies call_ensures(
                        func,
                        (old(self).elems()[k],),
                        #[trigger] final(self).elems()[k],
                    ) by {
                        assert(final(self).elems()[k] == final(self).storage()[beg + k]);
                        assert(old(self).elems()[k] == old(self).storage()[beg + k]);
                    }
                }
                Ok(())
            },
            None => Err(TensorError::ModifyingSharedTensorBuffer),
        }
    }
}

impl<T: Copy + Numeric> ElementWiseOperations<T> for Tensor<T> {
    fn mul_assign(&mut self, rhs: T) -> (r: TensorResult<()>) {
        let func = |v: T| -> (res: T)
            requires
                v.mul_ok(rhs),
            ensures
                res == v.mul_spec(rhs),
            { v.mul_value(rhs) };
        self.element_wise(func)
    }

    fn div_assign(&mut self, rhs: T) -> (r: TensorResult<()>) {
        let func = |v: T| -> (res: T)
            requires
                v.div_ok(rhs),
            ensures
                res == v.div_spec(rhs),
            { v.div_value(rhs) };
        self.element_wise(func)
    }
}

impl<T: Copy> PairWise<T> for Tensor<T> {
    fn pair_wise<F: Fn(T, T) -> T>(&self, other: &Self, func: F) -> (r: TensorResult<Self>) {
        if !self.shape.is_same_shape(&other.shape) {
            return Err(TensorError::IncompatibleTensorShapes);
        }
        proof {
            assert forall|k: int| 0 <= k < self.elems().len() implies call_requires(
                func,
                (self.elems()[k], other.elems()[k]),
            ) by {
                assert(self.view_elems()[k] == self.elems()[k]);
                assert(other.view_elems()[k] == other.elems()[k]);
            }
        }
        let (beg_a, end_a) = self.shape.absolute_bounds();
        let (beg_b, end_b) = other.shape.absolute_bounds();
        let count = self.shape.count();
        let mut buf: Vec<T> = Vec::new();
        let mut i: usize = 0;
        while i < count
            invariant
                self.wf(),
                other.wf(),
                self.bounds() == other.bounds(),
                i <= count,
                count == shape_count(self.bounds()),
                beg_a == self.offset(),
                beg_b == other.offset(),
                end_a == self.offset() + shape_count(self.bounds()),
                end_b == other.offset() + shape_count(other.bounds()),
                buf@.len() == i,
                forall|j: int|
                    0 <= j < i ==> call_ensures(
                        func,
                        (self.elems()[j], other.elems()[j]),
                        #[trigger] buf@[j],
                    ),
                forall|k: int|
                    0 <= k < self.elems().len() ==> call_requires(
                        func,
                        (self.elems()[k], other.elems()[k]),
                    ),
            decreases count - i,
        {
            let ba: &Vec<T> = &self.buffer_ref;
            let a = ba[beg_a + i];
            let bb: &Vec<T> = &other.buffer_ref;
            let b = bb[beg_b + i];
            proof {
                assert(a == self.elems()[i as int]);
                assert(b == other.elems()[i as int]);
            }
            let y = func(a, b);
            buf.push(y);
            i = i + 1;
        }
        let shape = TensorShape::new(self.shape.clone_bounds());
        let t = Tensor { buffer_ref: Rc::new(buf), shape };
        proof {
            assert(t.elems() =~= buf@);
        }
        Ok(t)
    }
}

/// Clones the reference-counted handle, not the buffer: the result shares
/// the same backing storage.
///
/// Relies on `Rc::clone`, which returns a new handle to the same
/// allocation and leaves the contents untouched.
#[verifier::external_body]
fn rc_clone<T>(rc: &Rc<Vec<T>>) -> (r: Rc<Vec<T>>)
    ensures
        r@ == rc@,
{
    Rc::clone(rc)
}

} // verus!
