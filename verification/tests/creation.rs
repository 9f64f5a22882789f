use tiny_tensor::creation::from_rank1;
use tiny_tensor::creation::from_rank2;
use tiny_tensor::creation::from_rank3;
use tiny_tensor::creation::zeros;
use tiny_tensor::error::TensorError;
use tiny_tensor::tensor::Tensor;

#[test]
fn test_zeros() {
    let result: Tensor<i32> = zeros(&[2, 3]);

    assert_eq!(*result.shape(), &[2, 3]);
    assert_eq!(*result.data(), vec![0, 0, 0, 0, 0, 0])
}

#[test]
fn test_zeros_scalar() {
    let result: Tensor<i32> = zeros(&[]);
    assert_eq!(result.shape().len(), 0);
    assert_eq!(*result.data(), vec![0]);
}

#[test]
fn test_zeros_zero_dimension() {
    let result: Tensor<u64> = zeros(&[3, 0, 2]);
    assert_eq!(*result.shape(), &[3, 0, 2]);
    assert_eq!(result.data().len(), 0);
}

#[test]
fn test_rank1_builder() {
    let t = from_rank1(vec![1, 2, 3]);
    assert_eq!(*t.shape(), &[3]);
    assert_eq!(*t.strides(), &[1]);
    assert_eq!(*t.data(), &[1, 2, 3]);
}

#[test]
fn test_rank2_builder_round_trip() {
    let t = from_rank2(vec![vec![1, 2], vec![3, 4]]).unwrap();
    assert_eq!(*t.shape(), &[2, 2]);
    assert_eq!(*t.data(), &[1, 2, 3, 4]);

    let direct = Tensor::new(vec![1, 2, 3, 4], vec![2, 2]).unwrap();
    assert_eq!(t, direct);
}

#[test]
fn test_rank2_builder_rejects_ragged_rows() {
    let result = from_rank2(vec![vec![1, 2], vec![3]]);
    match result {
        Err(TensorError::ShapeError(m)) => {
            assert_eq!(m, "all rows must have the same length");
        }
        _ => panic!("expected a shape error"),
    }
}

#[test]
fn test_rank3_builder() {
    let t = from_rank3(vec![
        vec![vec![1, 2], vec![3, 4]],
        vec![vec![5, 6], vec![7, 8]],
    ])
    .unwrap();
    assert_eq!(*t.shape(), &[2, 2, 2]);
    assert_eq!(*t.strides(), &[4, 2, 1]);
    assert_eq!(*t.data(), &[1, 2, 3, 4, 5, 6, 7, 8]);
}

#[test]
fn test_rank3_builder_rejects_ragged_blocks() {
    let uneven_rows = from_rank3(vec![
        vec![vec![1, 2], vec![3, 4]],
        vec![vec![5, 6]],
    ]);
    match uneven_rows {
        Err(TensorError::ShapeError(m)) => {
            assert_eq!(m, "all inner matrices must have equal sizes");
        }
        _ => panic!("expected a shape error"),
    }

    let uneven_cols = from_rank3(vec![
        vec![vec![1, 2], vec![3, 4]],
        vec![vec![5, 6], vec![7]],
    ]);
    assert!(matches!(uneven_cols, Err(TensorError::ShapeError(_))));
}

#[test]
fn test_zeros_of_float_elements() {
    let result: Tensor<f64> = zeros(&[2, 2]);
    assert_eq!(*result.shape(), &[2, 2]);
    assert_eq!(*result.data(), vec![0.0, 0.0, 0.0, 0.0]);
}
