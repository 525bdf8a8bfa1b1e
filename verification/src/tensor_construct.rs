//! Construction helpers that build tensors from flat or nested literal
//! arrays: a vector becomes a rank-1 tensor, a rectangular matrix a rank-2
//! tensor, and a rectangular 3-D block a rank-3 tensor.

use vstd::arithmetic::div_mod::{
    lemma_fundamental_div_mod, lemma_fundamental_div_mod_converse,
    lemma_mod_division_less_than_divisor,
};
use vstd::prelude::*;

use crate::common::{TensorError, TensorResult};
use crate::tensor::Tensor;
use crate::tensor_shape::{
    lemma_flatten_1, lemma_flatten_2, lemma_flatten_3, lemma_product_1, lemma_product_2,
    lemma_product_3, seq_product,
};

verus! {

/// Every row of `arr` is as long as the first one.
pub open spec fn rows_rectangular<T>(arr: Seq<Vec<T>>) -> bool {
    forall|i: int| 0 <= i < arr.len() ==> (#[trigger] arr[i])@.len() == arr[0]@.len()
}

/// Every 2-D block of `arr` has as many rows as the first block, and every
/// row of every block is as long as the first row of the first block.
pub open spec fn blocks_rectangular<T>(arr: Seq<Vec<Vec<T>>>) -> bool {
    &&& forall|d: int| 0 <= d < arr.len() ==> (#[trigger] arr[d])@.len() == arr[0]@.len()
    &&& forall|d: int, i: int|
        0 <= d < arr.len() && 0 <= i < arr[d]@.len() ==> (#[trigger] arr[d]@[i])@.len()
            == arr[0]@[0]@.len()
}

/// `x` is one of the entries of the nested 2-D array `arr`.
pub open spec fn is_entry_of_2d<T>(arr: Seq<Vec<T>>, x: T) -> bool {
    exists|i: int, j: int| 0 <= i < arr.len() && 0 <= j < arr[0]@.len() && x == arr[i]@[j]
}

/// `x` is one of the entries of the nested 3-D array `arr`.
pub open spec fn is_entry_of_3d<T>(arr: Seq<Vec<Vec<T>>>, x: T) -> bool {
    exists|d: int, i: int, j: int|
        0 <= d < arr.len() && 0 <= i < arr[0]@.len() && 0 <= j < arr[0]@[0]@.len() && x
            == arr[d]@[i]@[j]
}

/// A flat row-major position `p` below `rows * cols` decomposes into an
/// in-range row `p / cols` and column `p % cols`.
proof fn lemma_flat_index_bounds(p: int, rows: int, cols: int)
    requires
        0 < cols,
        0 <= p < rows * cols,
    ensures
        0 <= p / cols < rows,
        0 <= p % cols < cols,
{
    lemma_mod_division_less_than_divisor(p, cols);
    lemma_fundamental_div_mod(p, cols);
    let q = p / cols;
    let r = p % cols;
    assert(0 <= q < rows) by (nonlinear_arith)
        requires
            p == cols * q + r && 0 <= r < cols && 0 < cols && 0 <= p < rows * cols,
    ;
}

impl<T: Copy> Tensor<T> {
    /// Builds the rank-1 tensor holding the entries of `arr` in order.
    /// Fails with `IncorrectShape` when `arr` is empty.
    pub fn vector(arr: &Vec<T>) -> (r: TensorResult<Self>)
        ensures
            match r {
                Ok(t) => {
                    &&& arr@.len() > 0
                    &&& t.wf()
                    &&& t.bounds() == seq![arr@.len() as usize]
                    &&& t.elems() == arr@
                    &&& forall|i: int|
                        0 <= i < arr@.len() ==> t.value_at(seq![i as usize]) == #[trigger] arr@[i]
                },
                Err(e) => {
                    &&& e == TensorError::IncorrectShape
                    &&& arr@.len() == 0
                },
            },
    {
        let n = arr.len();
        if n == 0 {
            return Err(TensorError::IncorrectShape);
        }
        let mut buf: Vec<T> = Vec::new();
        let mut i: usize = 0;
        while i < n
            invariant
                i <= n,
                n == arr@.len(),
                buf@.len() == i,
                forall|j: int| 0 <= j < i ==> buf@[j] == arr@[j],
            decreases n - i,
        {
            buf.push(arr[i]);
            i = i + 1;
        }
        let mut bounds: Vec<usize> = Vec::new();
        bounds.push(n);
        proof {
            assert(bounds@ =~= seq![n]);
            lemma_product_1(n);
            assert forall|k: int| 0 <= k <= bounds@.len() implies #[trigger] seq_product(
                bounds@.skip(k),
            ) <= usize::MAX by {
                if k == 0 {
                    assert(bounds@.skip(0) =~= seq![n]);
                } else {
                    assert(bounds@.skip(1) =~= Seq::<usize>::empty());
                    assert(seq_product(Seq::<usize>::empty()) == 1);
                }
            }
        }
        let t = Self::from_parts(buf, bounds);
        proof {
            assert(buf@ =~= arr@);
            assert forall|i0: int| 0 <= i0 < arr@.len() implies t.value_at(seq![i0 as usize])
                == #[trigger] arr@[i0] by {
                lemma_flatten_1(n, i0 as usize);
            }
        }
        Ok(t)
    }

    /// Builds the rank-2 tensor holding the rows of `arr` in row-major
    /// order.  Fails with `IncorrectShape` when `arr` has no rows, rows of
    /// unequal length, or empty rows.
    pub fn matrix(arr: &Vec<Vec<T>>) -> (r: TensorResult<Self>)
        requires
            arr@.len() > 0 && rows_rectangular(arr@) ==> arr@.len() * arr@[0]@.len() <= usize::MAX,
        ensures
            match r {
                Ok(t) => {
                    &&& arr@.len() > 0
                    &&& arr@[0]@.len() > 0
                    &&& rows_rectangular(arr@)
                    &&& t.wf()
                    &&& t.bounds() == seq![arr@.len() as usize, arr@[0]@.len() as usize]
                    &&& t.elems().len() == arr@.len() * arr@[0]@.len()
                    &&& forall|i: int, j: int|
                        0 <= i < arr@.len() && 0 <= j < arr@[0]@.len() ==> t.value_at(
                            seq![i as usize, j as usize],
                        ) == #[trigger] arr@[i]@[j]
                    &&& forall|p: int|
                        0 <= p < t.elems().len() ==> is_entry_of_2d(arr@, #[trigger] t.elems()[p])
                },
                Err(e) => {
                    &&& e == TensorError::IncorrectShape
                    &&& (arr@.len() == 0 || arr@[0]@.len() == 0 || !rows_rectangular(arr@))
                },
            },
    {
        let rows = arr.len();
        if rows == 0 {
            return Err(TensorError::IncorrectShape);
        }
        let cols = arr[0].len();
        let mut i: usize = 0;
        while i < rows
            invariant
                i <= rows,
                rows == arr@.len(),
                rows > 0,
                cols == arr@[0]@.len(),
                forall|a: int| 0 <= a < i ==> (#[trigger] arr@[a])@.len() == cols,
            decreases rows - i,
        {
            if arr[i].len() != cols {
                return Err(TensorError::IncorrectShape);
            }
            i = i + 1;
        }
        if cols == 0 {
            return Err(TensorError::IncorrectShape);
        }
        let mut buf: Vec<T> = Vec::new();
        let mut a: usize = 0;
        while a < rows
            invariant
                a <= rows,
                rows == arr@.len(),
                cols == arr@[0]@.len(),
                cols > 0,
                rows_rectangular(arr@),
                rows * cols <= usize::MAX,
                buf@.len() == a * cols,
                forall|p: int|
                    0 <= p < buf@.len() ==> #[trigger] buf@[p] == arr@[p / (cols as int)]@[p % (
                    cols as int)],
            decreases rows - a,
        {
            let mut b: usize = 0;
            proof {
                assert((a + 1) * cols <= rows * cols) by (nonlinear_arith)
                    requires
                        a < rows && cols >= 0,
                ;
                assert(a * cols + cols == (a + 1) * cols) by (nonlinear_arith);
            }
            while b < cols
                invariant
                    b <= cols,
                    a < rows,
                    rows == arr@.len(),
                    cols == arr@[0]@.len(),
                    cols > 0,
                    rows_rectangular(arr@),
                    rows * cols <= usize::MAX,
                    a * cols + cols <= rows * cols,
                    buf@.len() == a * cols + b,
                    forall|p: int|
                        0 <= p < buf@.len() ==> #[trigger] buf@[p] == arr@[p / (cols as int)]@[p % (
                        cols as int)],
                decreases cols - b,
            {
                let row: &Vec<T> = &arr[a];
                buf.push(row[b]);
                proof {
                    lemma_fundamental_div_mod_converse(
                        (a * cols + b) as int,
                        cols as int,
                        a as int,
                        b as int,
                    );
                }
                b = b + 1;
            }
            a = a + 1;
        }
        let mut bounds: Vec<usize> = Vec::new();
        bounds.push(rows);
        bounds.push(cols);
        proof {
            assert(bounds@ =~= seq![rows, cols]);
            lemma_product_1(cols);
            lemma_product_2(rows, cols);
            assert forall|k: int| 0 <= k <= bounds@.len() implies #[trigger] seq_product(
                bounds@.skip(k),
            ) <= usize::MAX by {
                if k == 0 {
                    assert(bounds@.skip(0) =~= seq![rows, cols]);
                } else if k == 1 {
                    assert(bounds@.skip(1) =~= seq![cols]);
                } else {
                    assert(bounds@.skip(2) =~= Seq::<usize>::empty());
                    assert(seq_product(Seq::<usize>::empty()) == 1);
                }
            }
        }
        let t = Self::from_parts(buf, bounds);
        proof {
            assert forall|i0: int, j0: int|
                0 <= i0 < arr@.len() && 0 <= j0 < arr@[0]@.len() implies t.value_at(
                seq![i0 as usize, j0 as usize],
            ) == #[trigger] arr@[i0]@[j0] by {
                lemma_flatten_2(rows, cols, i0 as usize, j0 as usize);
                let p = i0 * (cols as int) + j0;
                assert(0 <= i0 * (cols as int) + j0 < (rows as int) * (cols as int))
                    by (nonlinear_arith)
                    requires
                        0 <= i0 < rows as int && 0 <= j0 < cols as int,
                ;
                assert(buf@.len() == (rows as int) * (cols as int));
                lemma_fundamental_div_mod_converse(p, cols as int, i0, j0);
                assert(t.elems()[p] == buf@[p]);
            }
            assert forall|p: int| 0 <= p < t.elems().len() implies is_entry_of_2d(
                arr@,
                #[trigger] t.elems()[p],
            ) by {
                lemma_flat_index_bounds(p, rows as int, cols as int);
                assert(t.elems()[p] == buf@[p]);
                assert(0 <= p / (cols as int) < arr@.len() && 0 <= p % (cols as int)
                    < arr@[0]@.len() && t.elems()[p] == arr@[p / (cols as int)]@[p % (
                cols as int)]);
            }
        }
        Ok(t)
    }

    /// Builds the rank-3 tensor holding the 2-D blocks of `arr` in
    /// row-major order.  Fails with `IncorrectShape` when the outer array
    /// is empty, any dimension is zero, or the blocks are not all
    /// rectangular with identical dimensions.
    pub fn tensor3d(arr: &Vec<Vec<Vec<T>>>) -> (r: TensorResult<Self>)
        requires
            arr@.len() > 0 && blocks_rectangular(arr@) ==> arr@.len() * (arr@[0]@.len()
                * arr@[0]@[0]@.len()) <= usize::MAX,
        ensures
            match r {
                Ok(t) => {
                    &&& arr@.len() > 0
                    &&& arr@[0]@.len() > 0
                    &&& arr@[0]@[0]@.len() > 0
                    &&& blocks_rectangular(arr@)
                    &&& t.wf()
                    &&& t.bounds() == seq![
                        arr@.len() as usize,
                        arr@[0]@.len() as usize,
                        arr@[0]@[0]@.len() as usize,
                    ]
                    &&& t.elems().len() == arr@.len() * (arr@[0]@.len() * arr@[0]@[0]@.len())
                    &&& (forall|p: int|
                        0 <= p < t.elems().len() ==> is_entry_of_3d(arr@, #[trigger] t.elems()[p]))
                    &&& forall|d: int, i: int, j: int|
                        0 <= d < arr@.len() && 0 <= i < arr@[0]@.len() && 0 <= j
                            < arr@[0]@[0]@.len() ==> t.value_at(
                            seq![d as usize, i as usize, j as usize],
                        ) == #[trigger] arr@[d]@[i]@[j]
                },
                Err(e) => {
                    &&& e == TensorError::IncorrectShape
                    &&& (arr@.len() == 0 || arr@[0]@.len() == 0 || arr@[0]@[0]@.len() == 0
                        || !blocks_rectangular(arr@))
                },
            },
    {
        let depth = arr.len();
        if depth == 0 {
            return Err(TensorError::IncorrectShape);
        }
        let rows = arr[0].len();
        let mut d: usize = 0;
        while d < depth
            invariant
                d <= depth,
                depth == arr@.len(),
                depth > 0,
                rows == arr@[0]@.len(),
                forall|x: int| 0 <= x < d ==> (#[trigger] arr@[x])@.len() == rows,
            decreases depth - d,
        {
            if arr[d].len() != rows {
                return Err(TensorError::IncorrectShape);
            }
            d = d + 1;
        }
        if rows == 0 {
            return Err(TensorError::IncorrectShape);
        }
        let first_block: &Vec<Vec<T>> = &arr[0];
        let first_row: &Vec<T> = &first_block[0];
        let cols = first_row.len();
        d = 0;
        while d < depth
            invariant
                d <= depth,
                depth == arr@.len(),
                depth > 0,
                rows > 0,
                rows == arr@[0]@.len(),
                cols == arr@[0]@[0]@.len(),
                forall|x: int| 0 <= x < depth ==> (#[trigger] arr@[x])@.len() == rows,
                forall|x: int, y: int|
                    0 <= x < d && 0 <= y < rows ==> (#[trigger] arr@[x]@[y])@.len() == cols,
            decreases depth - d,
        {
            let block: &Vec<Vec<T>> = &arr[d];
            let mut i: usize = 0;
            while i < rows
                invariant
                    i <= rows,
                    d < depth,
                    depth == arr@.len(),
                    rows == arr@[0]@.len(),
                    cols == arr@[0]@[0]@.len(),
                    block@ == arr@[d as int]@,
                    block@.len() == rows,
                    forall|y: int| 0 <= y < i ==> (#[trigger] block@[y])@.len() == cols,
                decreases rows - i,
            {
                if block[i].len() != cols {
                    return Err(TensorError::IncorrectShape);
                }
                i = i + 1;
            }
            d = d + 1;
        }
        if cols == 0 {
            return Err(TensorError::IncorrectShape);
        }
        let ghost rc = (rows as int) * (cols as int);
        let mut buf: Vec<T> = Vec::new();
        d = 0;
        while d < depth
            invariant
                d <= depth,
                depth == arr@.len(),
                rows == arr@[0]@.len(),
                cols == arr@[0]@[0]@.len(),
                rows > 0,
                cols > 0,
                blocks_rectangular(arr@),
                rc == (rows as int) * (cols as int),
                buf@.len() == d * rc,
                forall|p: int|
                    0 <= p < buf@.len() ==> #[trigger] buf@[p] == arr@[p / rc]@[(p % rc) / (
                    cols as int)]@[(p % rc) % (cols as int)],
            decreases depth - d,
        {
            let block: &Vec<Vec<T>> = &arr[d];
            let mut a: usize = 0;
            proof {
                assert((d + 1) * rc <= depth * rc) by (nonlinear_arith)
                    requires
                        d < depth && rc >= 0,
                ;
                assert(d * rc + rc == (d + 1) * rc) by (nonlinear_arith);
            }
            while a < rows
                invariant
                    a <= rows,
                    d < depth,
                    depth == arr@.len(),
                    rows == arr@[0]@.len(),
                    cols == arr@[0]@[0]@.len(),
                    rows > 0,
                    cols > 0,
                    blocks_rectangular(arr@),
                    rc == (rows as int) * (cols as int),
                    block@ == arr@[d as int]@,
                    buf@.len() == d * rc + a * cols,
                    d * rc + rc <= depth * rc,
                    forall|p: int|
                        0 <= p < buf@.len() ==> #[trigger] buf@[p] == arr@[p / rc]@[(p % rc) / (
                        cols as int)]@[(p % rc) % (cols as int)],
                decreases rows - a,
            {
                let row: &Vec<T> = &block[a];
                let mut b: usize = 0;
                proof {
                    assert((a + 1) * cols <= rows * cols) by (nonlinear_arith)
                        requires
                            a < rows && cols >= 0,
                    ;
                    assert(a * cols + cols == (a + 1) * cols) by (nonlinear_arith);
                }
                while b < cols
                    invariant
                        b <= cols,
                        a < rows,
                        d < depth,
                        depth == arr@.len(),
                        rows == arr@[0]@.len(),
                        cols == arr@[0]@[0]@.len(),
                        rows > 0,
                        cols > 0,
                        blocks_rectangular(arr@),
                        rc == (rows as int) * (cols as int),
                        block@ == arr@[d as int]@,
                        row@ == arr@[d as int]@[a as int]@,
                        buf@.len() == d * rc + a * cols + b,
                        a * cols + cols <= rc,
                        d * rc + rc <= depth * rc,
                        forall|p: int|
                            0 <= p < buf@.len() ==> #[trigger] buf@[p] == arr@[p / rc]@[(p % rc)
                                / (cols as int)]@[(p % rc) % (cols as int)],
                    decreases cols - b,
                {
                    buf.push(row[b]);
                    proof {
                        let q = (a * cols + b) as int;
                        assert(0 <= q < rc);
                        lemma_fundamental_div_mod_converse(
                            ((d as int) * rc + q) as int,
                            rc,
                            d as int,
                            q,
                        );
                        lemma_fundamental_div_mod_converse(q, cols as int, a as int, b as int);
                    }
                    b = b + 1;
                }
                a = a + 1;
            }
            d = d + 1;
        }
        let mut bounds: Vec<usize> = Vec::new();
        bounds.push(depth);
        bounds.push(rows);
        bounds.push(cols);
        proof {
            assert(bounds@ =~= seq![depth, rows, cols]);
            lemma_product_1(cols);
            lemma_product_2(rows, cols);
            lemma_product_3(depth, rows, cols);
            assert((rows as int) * (cols as int) <= (depth as int) * ((rows as int) * (
            cols as int))) by (nonlinear_arith)
                requires
                    depth >= 1 && rows >= 0 && cols >= 0,
            ;
            assert forall|k: int| 0 <= k <= bounds@.len() implies #[trigger] seq_product(
                bounds@.skip(k),
            ) <= usize::MAX by {
                if k == 0 {
                    assert(bounds@.skip(0) =~= seq![depth, rows, cols]);
                } else if k == 1 {
                    assert(bounds@.skip(1) =~= seq![rows, cols]);
                } else if k == 2 {
                    assert(bounds@.skip(2) =~= seq![cols]);
                } else {
                    assert(bounds@.skip(3) =~= Seq::<usize>::empty());
                    assert(seq_product(Seq::<usize>::empty()) == 1);
                }
            }
        }
        let t = Self::from_parts(buf, bounds);
        proof {
            assert forall|d0: int, i0: int, j0: int|
                0 <= d0 < arr@.len() && 0 <= i0 < arr@[0]@.len() && 0 <= j0
                    < arr@[0]@[0]@.len() implies t.value_at(
                seq![d0 as usize, i0 as usize, j0 as usize],
            ) == #[trigger] arr@[d0]@[i0]@[j0] by {
                lemma_flatten_3(depth, rows, cols, d0 as usize, i0 as usize, j0 as usize);
                let q = i0 * (cols as int) + j0;
                assert(0 <= i0 * (cols as int) + j0 < (rows as int) * (cols as int))
                    by (nonlinear_arith)
                    requires
                        0 <= i0 < rows as int && 0 <= j0 < cols as int,
                ;
                assert(0 <= q < rc);
                let p = d0 * rc + q;
                assert(0 <= d0 * rc + q < (depth as int) * rc) by (nonlinear_arith)
                    requires
                        0 <= d0 < depth as int && 0 <= q < rc,
                ;
                assert(0 <= p < (depth as int) * rc);
                assert(buf@.len() == (depth as int) * rc);
                lemma_fundamental_div_mod_converse(p, rc, d0, q);
                lemma_fundamental_div_mod_converse(q, cols as int, i0, j0);
                assert(t.elems()[p] == buf@[p]);
            }
            assert(t.elems().len() == (depth as int) * rc);
            assert(rc > 0) by (nonlinear_arith)
                requires
                    rc == (rows as int) * (cols as int) && rows >= 1 && cols >= 1,
            ;
            assert forall|p: int| 0 <= p < t.elems().len() implies is_entry_of_3d(
                arr@,
                #[trigger] t.elems()[p],
            ) by {
                lemma_flat_index_bounds(p, depth as int, rc);
                lemma_flat_index_bounds(p % rc, rows as int, cols as int);
                assert(t.elems()[p] == buf@[p]);
                assert(0 <= p / rc < arr@.len() && 0 <= (p % rc) / (cols as int) < arr@[0]@.len()
                    && 0 <= (p % rc) % (cols as int) < arr@[0]@[0]@.len() && t.elems()[p]
                    == arr@[p / rc]@[(p % rc) / (cols as int)]@[(p % rc) % (cols as int)]);
            }
        }
        Ok(t)
    }
}

} // verus!
