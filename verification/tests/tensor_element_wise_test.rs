use tensor_lib::common::{ElementWiseOperations, Numeric, TensorResult};
use tensor_lib::tensor::Tensor;

/// A floating-point scalar for tensors; the element type supplies its own
/// arithmetic to the library.
#[derive(Clone, Copy, PartialEq, Debug)]
struct Scalar(f64);

impl Numeric for Scalar {
    // the ghost side of the trait survives compilation as ordinary trait
    // items; give them their evident meanings
    fn mul_ok(self, _rhs: Self) -> bool {
        true
    }

    fn mul_spec(self, rhs: Self) -> Self {
        Scalar(self.0 * rhs.0)
    }

    fn div_ok(self, rhs: Self) -> bool {
        rhs.0 != 0.0
    }

    fn div_spec(self, rhs: Self) -> Self {
        Scalar(self.0 / rhs.0)
    }

    fn add_ok(self, _rhs: Self) -> bool {
        true
    }

    fn add_spec(self, rhs: Self) -> Self {
        Scalar(self.0 + rhs.0)
    }

    fn mul_value(self, rhs: Self) -> Self {
        Scalar(self.0 * rhs.0)
    }

    fn div_value(self, rhs: Self) -> Self {
        Scalar(self.0 / rhs.0)
    }

    fn add_value(self, rhs: Self) -> Self {
        Scalar(self.0 + rhs.0)
    }
}

fn wrap(rows: &[&[f64]]) -> Vec<Vec<Scalar>> {
    rows.iter()
        .map(|r| r.iter().map(|x| Scalar(*x)).collect())
        .collect()
}

#[test]
fn tensor_mul_assign() -> TensorResult<()> {
    let matrix = wrap(&[
        &[1.0, 0.0, 1.0],
        &[2.0, 1.0, 1.0],
        &[0.0, 1.0, 1.0],
        &[1.0, 1.0, 2.0],
    ]);
    let mut tensor = Tensor::matrix(&matrix)?;
    tensor.mul_assign(Scalar(2.0))?;

    let expected = [
        [2.0, 0.0, 2.0],
        [4.0, 2.0, 2.0],
        [0.0, 2.0, 2.0],
        [2.0, 2.0, 4.0],
    ];

    for i in 0..expected.len() {
        for j in 0..expected[i].len() {
            assert_eq!(
                tensor.get(&vec![i, j])?,
                Scalar(expected[i][j]),
                "Tensor mul_assign implemented incorrectly"
            );
        }
    }
    Ok(())
}

#[test]
fn tensor_div_assign() -> TensorResult<()> {
    let matrix = wrap(&[
        &[2.0, 0.0, 2.0],
        &[4.0, 2.0, 2.0],
        &[0.0, 2.0, 2.0],
        &[2.0, 2.0, 4.0],
    ]);
    let mut tensor = Tensor::matrix(&matrix)?;
    tensor.div_assign(Scalar(2.0))?;

    let expected = [
        [1.0, 0.0, 1.0],
        [2.0, 1.0, 1.0],
        [0.0, 1.0, 1.0],
        [1.0, 1.0, 2.0],
    ];

    for i in 0..matrix.len() {
        for j in 0..matrix[i].len() {
            assert_eq!(
                tensor.get(&vec![i, j])?,
                Scalar(expected[i][j]),
                "Tensor div_assign implemented incorrectly"
            );
        }
    }
    Ok(())
}

#[test]
fn tensor_scale_divide_round_trip() -> TensorResult<()> {
    let original = [
        [1.5, 0.25, -3.75],
        [2.125, -1.0, 0.0],
        [7.5, 0.875, -0.5],
    ];
    let matrix = wrap(&[&original[0], &original[1], &original[2]]);
    let mut tensor = Tensor::matrix(&matrix)?;
    tensor.mul_assign(Scalar(2.0))?;
    tensor.div_assign(Scalar(2.0))?;
    for i in 0..3 {
        for j in 0..3 {
            let got = tensor.get(&vec![i, j])?.0;
            assert!(
                (got - original[i][j]).abs() < 1e-9,
                "round trip changed an element"
            );
        }
    }
    Ok(())
}

#[test]
fn tensor_numeric_i64() -> TensorResult<()> {
    let mut tensor = Tensor::matrix(&vec![vec![6i64, -7, 10], vec![0, 3, -4]])?;
    tensor.mul_assign(3)?;
    assert_eq!(tensor.get(&vec![0, 0])?, 18);
    assert_eq!(tensor.get(&vec![0, 1])?, -21);
    tensor.div_assign(2)?;
    // integer division truncates toward zero
    assert_eq!(tensor.get(&vec![0, 0])?, 9);
    assert_eq!(tensor.get(&vec![0, 1])?, -10);
    assert_eq!(tensor.get(&vec![1, 0])?, 0);
    assert_eq!(tensor.get(&vec![1, 2])?, -6);
    Ok(())
}
