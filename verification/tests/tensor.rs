use tiny_tensor::error::TensorError;
use tiny_tensor::tensor::Tensor;

#[test]
fn test_new_tensor_success() {
    let result = Tensor::new(vec![1, 2, 3, 4, 5, 6], vec![2, 3]).unwrap();

    assert_eq!(*result.shape(), &[2, 3]);
    assert_eq!(*result.strides(), &[3, 1]);
    assert_eq!(*result.data(), &[1, 2, 3, 4, 5, 6]);
}

#[test]
fn test_new_tensor_shape_error() {
    let result = Tensor::new(vec![1, 2, 3], vec![2, 3]);

    assert!(matches!(result, Err(TensorError::ShapeError(_))))
}

#[test]
fn test_shape_error_message_names_both_sizes() {
    let result = Tensor::new(vec![1, 2, 3], vec![2, 3]);
    match result {
        Err(TensorError::ShapeError(m)) => {
            assert_eq!(m, "Data size (3) does not match shape product (6)");
        }
        _ => panic!("expected a shape error"),
    }
}

#[test]
fn test_error_message_rendering() {
    let result = Tensor::new(vec![1, 2, 3], vec![2, 3]);
    let err = result.unwrap_err();
    assert_eq!(
        err.message(),
        "ShapeError: Data size (3) does not match shape product (6)"
    );
}

#[test]
fn test_zero_dimension_demands_empty_data() {
    let t = Tensor::<i32>::new(vec![], vec![0]).unwrap();
    assert_eq!(*t.shape(), &[0]);
    assert_eq!(*t.strides(), &[1]);
    assert_eq!(t.data().len(), 0);

    let result = Tensor::new(vec![1], vec![0]);
    match result {
        Err(TensorError::ShapeError(m)) => {
            assert_eq!(m, "Data size (1) does not match shape product (0)");
        }
        _ => panic!("expected a shape error"),
    }
}

#[test]
fn test_scalar_shape_demands_one_element() {
    let t = Tensor::new(vec![7], vec![]).unwrap();
    assert_eq!(t.shape().len(), 0);
    assert_eq!(t.strides().len(), 0);
    assert_eq!(*t.data(), &[7]);

    let result = Tensor::<i32>::new(vec![], vec![]);
    assert!(matches!(result, Err(TensorError::ShapeError(_))));
}

#[test]
fn test_overflowing_shape_product_is_a_mismatch() {
    let result = Tensor::new(vec![1], vec![usize::MAX, usize::MAX]);
    match result {
        Err(TensorError::ShapeError(m)) => {
            assert_eq!(m, "Data size (1) does not match shape product (overflow)");
        }
        _ => panic!("expected a shape error"),
    }
}

#[test]
fn test_rank3_strides() {
    let t = Tensor::new((0..24).collect::<Vec<i32>>(), vec![2, 3, 4]).unwrap();
    assert_eq!(*t.shape(), &[2, 3, 4]);
    assert_eq!(*t.strides(), &[12, 4, 1]);
}

#[test]
fn test_clone_preserves_value() {
    let t = Tensor::new(vec![1, 2, 3, 4], vec![2, 2]).unwrap();
    let u = t.clone();
    assert_eq!(t, u);
    assert_eq!(*u.strides(), &[2, 1]);
}

#[test]
fn test_calculate_strides_row_major() {
    assert_eq!(Tensor::<i32>::calculate_strides(&[5]), vec![1]);
    assert_eq!(Tensor::<i32>::calculate_strides(&[2, 3]), vec![3, 1]);
    assert_eq!(Tensor::<i32>::calculate_strides(&[4, 2, 3]), vec![6, 3, 1]);
    assert_eq!(Tensor::<i32>::calculate_strides(&[]), Vec::<usize>::new());
}
