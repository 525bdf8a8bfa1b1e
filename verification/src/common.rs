//! Shared vocabulary of the tensor library: index/bounds aliases, the error
//! type, the scalar arithmetic trait, and the element-wise / pair-wise
//! operation protocol.

use vstd::arithmetic::div_mod::lemma_div_multiples_vanish;
use vstd::prelude::*;

verus! {

/// A multi-dimensional index, one entry per axis, outer axis first.
pub type TensorIndex = Vec<usize>;

/// The size of each axis of a tensor, outer axis first.
pub type TensorBounds = Vec<usize>;

/// Everything a tensor operation can fail with.
#[derive(Debug, PartialEq, Eq, Structural, Clone, Copy)]
pub enum TensorError {
    /// An index has the wrong rank or exceeds a bound on some axis.
    IndexOutOfBounds,
    /// Two operands of a pair-wise operation differ in rank or in some bound.
    IncompatibleTensorShapes,
    /// A construction input is empty or non-rectangular, or a nested view
    /// request leaves no trailing axes.
    IncorrectShape,
    /// An in-place mutation was attempted while the backing buffer is shared
    /// with another live tensor.
    ModifyingSharedTensorBuffer,
}

pub type TensorResult<T> = Result<T, TensorError>;

/// An in-place unary transform over every addressed element of a
/// shape-indexed container.
///
/// The spec members expose the container's model: its addressed elements in
/// row-major order, its axis bounds, and its well-formedness.
pub trait ElementWise<T: Copy>: Sized {
    /// The addressed elements, in row-major order.
    spec fn view_elems(&self) -> Seq<T>;

    /// The axis bounds, outer axis first.
    spec fn view_bounds(&self) -> Seq<usize>;

    /// Structural well-formedness of the container.
    spec fn view_wf(&self) -> bool;

    /// Applies `func` to every addressed element in place.  Fails with
    /// `ModifyingSharedTensorBuffer`, leaving the elements unchanged, when
    /// the container does not exclusively own its storage.
    fn element_wise<F: Fn(T) -> T>(&mut self, func: F) -> (r: TensorResult<()>)
        requires
            old(self).view_wf(),
            forall|i: int|
                0 <= i < old(self).view_elems().len() ==> call_requires(
                    func,
                    (old(self).view_elems()[i],),
                ),
        ensures
            final(self).view_wf(),
            final(self).view_bounds() == old(self).view_bounds(),
            match r {
                Ok(()) => final(self).view_elems().len() == old(self).view_elems().len()
                    && forall|i: int|
                    0 <= i < old(self).view_elems().len() ==> call_ensures(
                        func,
                        (old(self).view_elems()[i],),
                        #[trigger] final(self).view_elems()[i],
                    ),
                Err(e) => e == TensorError::ModifyingSharedTensorBuffer && final(self).view_elems()
                    == old(self).view_elems(),
            },
    ;
}

/// Numeric in-place convenience operations, built atop the element-wise
/// primitive: multiply every element by a scalar, or divide every element
/// by a scalar.
pub trait ElementWiseOperations<T: Copy + Numeric>: ElementWise<T> {
    /// Multiplies every addressed element by `rhs` in place.  Fails with
    /// `ModifyingSharedTensorBuffer`, leaving the elements unchanged, when
    /// the container does not exclusively own its storage.
    fn mul_assign(&mut self, rhs: T) -> (r: TensorResult<()>)
        requires
            old(self).view_wf(),
            forall|i: int|
                0 <= i < old(self).view_elems().len() ==> (#[trigger] old(self).view_elems()[i]).mul_ok(
                    rhs,
                ),
        ensures
            final(self).view_wf(),
            final(self).view_bounds() == old(self).view_bounds(),
            match r {
                Ok(()) => final(self).view_elems().len() == old(self).view_elems().len()
                    && forall|i: int|
                    0 <= i < old(self).view_elems().len() ==> final(self).view_elems()[i] == (
                    #[trigger] old(self).view_elems()[i]).mul_spec(rhs),
                Err(e) => e == TensorError::ModifyingSharedTensorBuffer && final(self).view_elems()
                    == old(self).view_elems(),
            },
    ;

    /// Divides every addressed element by `rhs` in place.  Fails with
    /// `ModifyingSharedTensorBuffer`, leaving the elements unchanged, when
    /// the container does not exclusively own its storage.
    fn div_assign(&mut self, rhs: T) -> (r: TensorResult<()>)
        requires
            old(self).view_wf(),
            forall|i: int|
                0 <= i < old(self).view_elems().len() ==> (#[trigger] old(self).view_elems()[i]).div_ok(
                    rhs,
                ),
        ensures
            final(self).view_wf(),
            final(self).view_bounds() == old(self).view_bounds(),
            match r {
                Ok(()) => final(self).view_elems().len() == old(self).view_elems().len()
                    && forall|i: int|
                    0 <= i < old(self).view_elems().len() ==> final(self).view_elems()[i] == (
                    #[trigger] old(self).view_elems()[i]).div_spec(rhs),
                Err(e) => e == TensorError::ModifyingSharedTensorBuffer && final(self).view_elems()
                    == old(self).view_elems(),
            },
    ;
}

/// A binary zip of two identically-shaped containers into a new,
/// independently owned one.
pub trait PairWise<T: Copy>: ElementWise<T> {
    /// Combines the addressed elements of `self` and `other` pairwise with
    /// `func` into a new container of the same bounds.  Fails with
    /// `IncompatibleTensorShapes` when the bounds differ; never mutates
    /// either operand.
    fn pair_wise<F: Fn(T, T) -> T>(&self, other: &Self, func: F) -> (r: TensorResult<Self>)
        requires
            self.view_wf(),
            other.view_wf(),
            self.view_bounds() == other.view_bounds() ==> forall|i: int|
                0 <= i < self.view_elems().len() ==> call_requires(
                    func,
                    (self.view_elems()[i], other.view_elems()[i]),
                ),
        ensures
            match r {
                Ok(t) => {
                    &&& self.view_bounds() == other.view_bounds()
                    &&& t.view_wf()
                    &&& t.view_bounds() == self.view_bounds()
                    &&& t.view_elems().len() == self.view_elems().len()
                    &&& other.view_elems().len() == self.view_elems().len()
                    &&& forall|i: int|
                        0 <= i < self.view_elems().len() ==> call_ensures(
                            func,
                            (self.view_elems()[i], other.view_elems()[i]),
                            #[trigger] t.view_elems()[i],
                        )
                },
                Err(e) => {
                    &&& e == TensorError::IncompatibleTensorShapes
                    &&& self.view_bounds() != other.view_bounds()
                },
            },
    ;
}

/// Scalar arithmetic for tensor element types.
///
/// Element types supply their own multiplication, division and addition,
/// each with a spec-level description (`*_spec`) and a precondition
/// (`*_ok`) ruling out the inputs on which the operation is undefined or
/// overflows.
pub trait Numeric: Sized + Copy {
    /// When is `self * rhs` defined (e.g. free of overflow)?
    spec fn mul_ok(self, rhs: Self) -> bool;

    /// The mathematical value of `self * rhs`.
    spec fn mul_spec(self, rhs: Self) -> Self;

    /// When is `self / rhs` defined?
    spec fn div_ok(self, rhs: Self) -> bool;

    /// The mathematical value of `self / rhs`.
    spec fn div_spec(self, rhs: Self) -> Self;

    /// When is `self + rhs` defined (e.g. free of overflow)?
    spec fn add_ok(self, rhs: Self) -> bool;

    /// The mathematical value of `self + rhs`.
    spec fn add_spec(self, rhs: Self) -> Self;

    fn mul_value(self, rhs: Self) -> (r: Self)
        requires
            self.mul_ok(rhs),
        ensures
            r == self.mul_spec(rhs),
    ;

    fn div_value(self, rhs: Self) -> (r: Self)
        requires
            self.div_ok(rhs),
        ensures
            r == self.div_spec(rhs),
    ;

    fn add_value(self, rhs: Self) -> (r: Self)
        requires
            self.add_ok(rhs),
        ensures
            r == self.add_spec(rhs),
    ;
}

impl Numeric for i64 {
    open spec fn mul_ok(self, rhs: Self) -> bool {
        i64::MIN <= self * rhs <= i64::MAX
    }

    open spec fn mul_spec(self, rhs: Self) -> Self {
        (self * rhs) as i64
    }

    open spec fn div_ok(self, rhs: Self) -> bool {
        rhs != 0 && !(self == i64::MIN && rhs == -1)
    }

    open spec fn div_spec(self, rhs: Self) -> Self {
        self.checked_div(rhs).unwrap()
    }

    open spec fn add_ok(self, rhs: Self) -> bool {
        i64::MIN <= self + rhs <= i64::MAX
    }

    open spec fn add_spec(self, rhs: Self) -> Self {
        (self + rhs) as i64
    }

    fn mul_value(self, rhs: Self) -> (r: Self) {
        self * rhs
    }

    fn div_value(self, rhs: Self) -> (r: Self) {
        proof {
            let x = self as int;
            let d = rhs as int;
            if x > 0 && d > 0 {
                assert(0 <= x / d <= x) by (nonlinear_arith)
                    requires
                        x > 0 && d > 0,
                ;
            } else if x < 0 && d < 0 {
                assert(0 <= (x * -1) / (d * -1) <= x * -1) by (nonlinear_arith)
                    requires
                        x < 0 && d < 0,
                ;
                if x == i64::MIN {
                    assert((x * -1) / (d * -1) <= (x * -1) / 2) by (nonlinear_arith)
                        requires
                            x < 0 && d <= -2,
                    ;
                }
            } else if x < 0 {
                assert(0 <= (x * -1) / d <= x * -1) by (nonlinear_arith)
                    requires
                        x < 0 && d > 0,
                ;
            } else if x > 0 {
                assert(0 <= x / (d * -1) <= x) by (nonlinear_arith)
                    requires
                        x > 0 && d < 0,
                ;
            }
        }
        match self.checked_div(rhs) {
            Some(q) => q,
            None => 0,
        }
    }

    fn add_value(self, rhs: Self) -> (r: Self) {
        self + rhs
    }
}

/// Multiplying an `i64` by a nonzero factor and dividing the product by
/// the same factor restores the original value, whenever the
/// multiplication does not overflow.
pub proof fn lemma_mul_div_cancel(x: i64, c: i64)
    requires
        c != 0,
        x.mul_ok(c),
    ensures
        x.mul_spec(c).div_ok(c),
        x.mul_spec(c).div_spec(c) == x,
{
    let y = x.mul_spec(c);
    assert(y == x * c);
    if c == -1 {
        assert(y == -(x as int));
        assert(y != i64::MIN);
    }
    assert(y.div_ok(c));
    let yi = y as int;
    let ci = c as int;
    let xi = x as int;
    if xi == 0 {
        assert(yi == 0) by (nonlinear_arith)
            requires
                yi == xi * ci && xi == 0,
        ;
        assert(y.div_spec(c) == 0);
    } else if xi > 0 && ci > 0 {
        assert(yi > 0) by (nonlinear_arith)
            requires
                yi == xi * ci && xi > 0 && ci > 0,
        ;
        assert(yi == ci * xi) by (nonlinear_arith)
            requires
                yi == xi * ci,
        ;
        lemma_div_multiples_vanish(xi, ci);
        assert(y.div_spec(c) == yi / ci);
    } else if xi < 0 && ci > 0 {
        assert(yi < 0) by (nonlinear_arith)
            requires
                yi == xi * ci && xi < 0 && ci > 0,
        ;
        assert(yi * -1 == ci * (-xi)) by (nonlinear_arith)
            requires
                yi == xi * ci,
        ;
        lemma_div_multiples_vanish(-xi, ci);
        assert((yi * -1) / ci == -xi);
        assert(y.div_spec(c) == ((yi * -1) / ci) * -1);
    } else if xi > 0 && ci < 0 {
        assert(yi < 0) by (nonlinear_arith)
            requires
                yi == xi * ci && xi > 0 && ci < 0,
        ;
        assert(yi * -1 == (ci * -1) * xi) by (nonlinear_arith)
            requires
                yi == xi * ci,
        ;
        lemma_div_multiples_vanish(xi, ci * -1);
        assert((yi * -1) / (ci * -1) == xi);
        assert(y.div_spec(c) == ((yi * -1) / (ci * -1)));
    } else {
        assert(yi > 0) by (nonlinear_arith)
            requires
                yi == xi * ci && xi < 0 && ci < 0,
        ;
        assert(yi == (ci * -1) * (-xi)) by (nonlinear_arith)
            requires
                yi == xi * ci,
        ;
        lemma_div_multiples_vanish(-xi, ci * -1);
        assert(yi / (ci * -1) == -xi);
        assert(y.div_spec(c) == (yi / (ci * -1)) * -1);
    }
}

/// Scaling a sequence of elements by a nonzero factor and then dividing by
/// the same factor restores every element: the in-place round trip of
/// multiplying a tensor's elements and dividing them again, stated over
/// the element model that `mul_assign` and `div_assign` promise.
pub proof fn lemma_scale_divide_round_trip(s: Seq<i64>, c: i64)
    requires
        c != 0,
        forall|i: int| 0 <= i < s.len() ==> (#[trigger] s[i]).mul_ok(c),
    ensures
        forall|i: int|
            0 <= i < s.len() ==> (#[trigger] s[i]).mul_spec(c).div_ok(c) && s[i].mul_spec(
                c,
            ).div_spec(c) == s[i],
{
    assert forall|i: int| 0 <= i < s.len() implies (#[trigger] s[i]).mul_spec(c).div_ok(c)
        && s[i].mul_spec(c).div_spec(c) == s[i] by {
        lemma_mul_div_cancel(s[i], c);
    }
}

} // verus!
