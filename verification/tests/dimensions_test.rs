use tensor_lib::dimensions::Dimensions;
use tensor_lib::errors::MathError;

#[test]
fn dimensions_init_from_vector() {
    let v = vec![vec![1, 2, 3], vec![2, 3, 4]];
    assert_eq!(Dimensions::from_vector(&v), Ok(Dimensions::new(2, 3)));

    let v: Vec<Vec<()>> = vec![];
    assert_eq!(Dimensions::from_vector(&v), Ok(Dimensions::new(0, 0)));

    let v = vec![vec![1, 2, 3], vec![2, 3]];
    assert_eq!(
        Dimensions::from_vector(&v),
        Err(MathError::IncorrectVectorDimensions)
    );

    let v: Vec<Vec<()>> = vec![vec![()]];
    assert_eq!(Dimensions::from_vector(&v), Ok(Dimensions::new(1, 1)));
}

#[test]
fn dimensions_is_square() {
    let d = Dimensions::new(3, 5);
    assert!(!d.is_square(), "Dims are not square");

    let d = Dimensions::new(5, 5);
    assert!(d.is_square(), "Dims expected to be square");
}

#[test]
fn dimensions_dimensions_init_from_vector() {
    let v = vec![vec![1, 2, 3], vec![2, 3, 4]];
    assert_eq!(Dimensions::from_vector(&v), Ok(Dimensions::new(2, 3)));

    let v: Vec<Vec<()>> = vec![];
    assert_eq!(Dimensions::from_vector(&v), Ok(Dimensions::new(0, 0)));

    let v = vec![vec![1, 2, 3], vec![2, 3]];
    assert_eq!(
        Dimensions::from_vector(&v),
        Err(MathError::IncorrectVectorDimensions)
    );

    let v: Vec<Vec<()>> = vec![vec![()]];
    assert_eq!(Dimensions::from_vector(&v), Ok(Dimensions::new(1, 1)));
}

#[test]
fn dimensions_dimensions_is_square() {
    let d = Dimensions::new(3, 5);
    assert!(!d.is_square(), "Dims are not square");

    let d = Dimensions::new(5, 5);
    assert!(d.is_square(), "Dims expected to be square");
}

#[test]
fn dimensions_accessors() {
    let d = Dimensions::new(4, 7);
    assert_eq!(d.rows(), 4);
    assert_eq!(d.cols(), 7);
    assert_eq!(d.size(), 28);
    assert_eq!(d.as_tuple(), (4, 7));
    assert!(d.is_valid_position(3, 6));
    assert!(!d.is_valid_position(4, 0));
    assert!(!d.is_valid_position(0, 7));

    let s = Dimensions::square(6);
    assert_eq!(s.as_tuple(), (6, 6));
}

#[test]
fn math_error_description() {
    let e = MathError::IncorrectVectorDimensions;
    assert_eq!(
        e.description(),
        "Initializing 2d vector must have the same column number in each row"
    );
    let e = MathError::IncorrectPosition(3, 9);
    assert_eq!(e.description(), "Row and/or col are/is out of bounds");
}
