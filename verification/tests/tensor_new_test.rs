use tensor_lib::common::{ElementWise, PairWise, TensorError, TensorResult};
use tensor_lib::tensor::Tensor;
use tensor_lib::tensor_shape::TensorShape;

#[test]
fn tensor_new_fill() -> TensorResult<()> {
    let tensor = Tensor::new(vec![2, 3], 7i64);
    for i in 0..2 {
        for j in 0..3 {
            assert_eq!(tensor.get(&vec![i, j])?, 7);
        }
    }
    Ok(())
}

#[test]
fn tensor_rank0_is_empty() {
    let tensor = Tensor::new(vec![], 1i64);
    // the empty shape addresses no element, so even the empty index is
    // rejected
    assert_eq!(tensor.get(&vec![]), Err(TensorError::IndexOutOfBounds));
}

#[test]
fn tensor_shape_indexing() -> TensorResult<()> {
    let arr = vec![vec![vec![1i64, 2], vec![3, 4], vec![5, 6]], vec![
        vec![7, 8],
        vec![9, 10],
        vec![11, 12],
    ]];
    let tensor = Tensor::tensor3d(&arr)?;
    for d in 0..2 {
        for i in 0..3 {
            for j in 0..2 {
                assert_eq!(tensor.get(&vec![d, i, j])?, arr[d][i][j]);
            }
        }
    }
    Ok(())
}

#[test]
fn tensor_bounds_rejection() -> TensorResult<()> {
    let tensor = Tensor::matrix(&vec![vec![1i64, 2, 3], vec![4, 5, 6]])?;
    // index equal to the bound on each axis
    assert_eq!(tensor.get(&vec![2, 0]), Err(TensorError::IndexOutOfBounds));
    assert_eq!(tensor.get(&vec![0, 3]), Err(TensorError::IndexOutOfBounds));
    // mismatched rank
    assert_eq!(tensor.get(&vec![0]), Err(TensorError::IndexOutOfBounds));
    assert_eq!(
        tensor.get(&vec![0, 0, 0]),
        Err(TensorError::IndexOutOfBounds)
    );
    // writes are rejected the same way
    let mut tensor = tensor;
    assert_eq!(
        tensor.set(&vec![2, 0], 9),
        Err(TensorError::IndexOutOfBounds)
    );
    Ok(())
}

#[test]
fn tensor_set_then_get() -> TensorResult<()> {
    let mut tensor = Tensor::new(vec![2, 2], 0i64);
    tensor.set(&vec![0, 1], 5)?;
    tensor.set(&vec![1, 0], -2)?;
    assert_eq!(tensor.get(&vec![0, 1])?, 5);
    assert_eq!(tensor.get(&vec![1, 0])?, -2);
    assert_eq!(tensor.get(&vec![0, 0])?, 0);
    Ok(())
}

#[test]
fn tensor_pair_wise_shape_guard() -> TensorResult<()> {
    let a = Tensor::new(vec![4, 3], 1.0f64);
    let b = Tensor::new(vec![5, 3], 1.0f64);
    assert_eq!(
        a.pair_wise(&b, |x, y| x + y).err(),
        Some(TensorError::IncompatibleTensorShapes)
    );
    Ok(())
}

#[test]
fn tensor_pair_wise_sum() -> TensorResult<()> {
    let a = Tensor::matrix(&vec![
        vec![1.0f64, 0.0, 1.0],
        vec![2.0, 1.0, 1.0],
        vec![0.0, 1.0, 1.0],
        vec![1.0, 1.0, 2.0],
    ])?;
    let b = Tensor::matrix(&vec![
        vec![10.0f64, 20.0, 30.0],
        vec![40.0, 50.0, 60.0],
        vec![70.0, 80.0, 90.0],
        vec![100.0, 110.0, 120.0],
    ])?;
    let sum = a.pair_wise(&b, |x, y| x + y)?;
    for i in 0..4 {
        for j in 0..3 {
            assert_eq!(
                sum.get(&vec![i, j])?,
                a.get(&vec![i, j])? + b.get(&vec![i, j])?
            );
        }
    }
    Ok(())
}

#[test]
fn tensor_element_wise_shared_fails() -> TensorResult<()> {
    let mut parent = Tensor::matrix(&vec![vec![1i64, 2], vec![3, 4]])?;
    let view = parent.nested_tensor(&vec![0])?;
    assert_eq!(
        parent.element_wise(|x| x),
        Err(TensorError::ModifyingSharedTensorBuffer)
    );
    drop(view);
    parent.element_wise(|x: i64| x.wrapping_mul(2))?;
    assert_eq!(parent.get(&vec![1, 1])?, 8);
    Ok(())
}

#[test]
fn tensor_construction_rejection() {
    // rows of unequal length
    let uneven = vec![vec![1i64, 2, 3], vec![4, 5]];
    assert_eq!(
        Tensor::matrix(&uneven).err(),
        Some(TensorError::IncorrectShape)
    );
    // zero rows
    let no_rows: Vec<Vec<i64>> = vec![];
    assert_eq!(
        Tensor::matrix(&no_rows).err(),
        Some(TensorError::IncorrectShape)
    );
    // zero columns
    let no_cols: Vec<Vec<i64>> = vec![vec![], vec![]];
    assert_eq!(
        Tensor::matrix(&no_cols).err(),
        Some(TensorError::IncorrectShape)
    );
    // empty flat vector
    let empty: Vec<i64> = vec![];
    assert_eq!(
        Tensor::vector(&empty).err(),
        Some(TensorError::IncorrectShape)
    );
    // a 3-D block whose second block has a short row
    let ragged = vec![vec![vec![1i64, 2], vec![3, 4]], vec![vec![5, 6], vec![7]]];
    assert_eq!(
        Tensor::tensor3d(&ragged).err(),
        Some(TensorError::IncorrectShape)
    );
    // a 3-D block with no rows in any block
    let empty3d: Vec<Vec<Vec<i64>>> = vec![vec![], vec![]];
    assert_eq!(
        Tensor::tensor3d(&empty3d).err(),
        Some(TensorError::IncorrectShape)
    );
}

#[test]
fn tensor_vector_roundtrip() -> TensorResult<()> {
    let arr = vec![3i64, 1, 4, 1, 5];
    let tensor = Tensor::vector(&arr)?;
    for i in 0..arr.len() {
        assert_eq!(tensor.get(&vec![i])?, arr[i]);
    }
    assert_eq!(tensor.get(&vec![5]), Err(TensorError::IndexOutOfBounds));
    Ok(())
}

#[test]
fn tensor_shape_parameters() {
    let shape = TensorShape::new(vec![3, 4, 5]);
    assert_eq!(shape.rank(), 3);
    assert_eq!(shape.count(), 60);
    assert_eq!(shape.absolute_bounds(), (0, 60));
    assert!(shape.is_valid_index(&vec![2, 3, 4]));
    assert!(!shape.is_valid_index(&vec![3, 0, 0]));
    assert!(!shape.is_valid_index(&vec![0, 0]));
    // row-major strides: [20, 5, 1]
    assert_eq!(shape.buffer_index(&vec![0, 0, 1]), 1);
    assert_eq!(shape.buffer_index(&vec![0, 1, 0]), 5);
    assert_eq!(shape.buffer_index(&vec![1, 0, 0]), 20);
    assert_eq!(shape.buffer_index(&vec![2, 3, 4]), 59);
}

#[test]
fn tensor_shape_relations() {
    let a = TensorShape::new(vec![4, 3]);
    let b = TensorShape::new(vec![4, 3]);
    let c = TensorShape::new(vec![5, 3]);
    let d = TensorShape::new(vec![4]);
    assert!(a.is_same_shape(&b));
    assert!(!a.is_same_shape(&c));
    assert!(!a.is_same_shape(&d));
    assert!(a.is_same_rank(&c));
    assert!(!a.is_same_rank(&d));
}

#[test]
fn tensor_shape_nested() {
    let shape = TensorShape::new(vec![3, 4, 5]);
    let nested = shape.nested_shape(&vec![2]).unwrap();
    assert_eq!(nested.rank(), 2);
    assert_eq!(nested.count(), 20);
    assert_eq!(nested.absolute_bounds(), (40, 60));
    assert!(shape.nested_shape(&vec![0, 0, 0]).is_err());
}

#[test]
fn tensor_iter_row_major() -> TensorResult<()> {
    let tensor = Tensor::matrix(&vec![vec![1i64, 2, 3], vec![4, 5, 6]])?;
    assert_eq!(tensor.iter(), vec![1, 2, 3, 4, 5, 6]);
    let slice = tensor.nested_tensor(&vec![1])?;
    assert_eq!(slice.iter(), vec![4, 5, 6]);
    Ok(())
}

#[test]
fn tensor_product2d_empty_inner_dimension() {
    // rank-2 operands whose shared dimension is empty cannot be multiplied
    let a: Tensor<i64> = Tensor::new(vec![4, 0], 0);
    let b: Tensor<i64> = Tensor::new(vec![0, 3], 0);
    assert_eq!(
        a.product2d(&b).err(),
        Some(tensor_lib::common::TensorError::IncompatibleTensorShapes)
    );
}
