use tiny_tensor::creation::from_rank1;
use tiny_tensor::creation::zeros;
use tiny_tensor::tensor::Tensor;
use tiny_tensor::text::usize_to_decimal;

#[test]
fn test_display_rank2() {
    let t = Tensor::new(vec![1, 2, 3, 4], vec![2, 2]).unwrap();
    assert_eq!(
        t.to_display_string(),
        "[\n  [\n    1,\n    2\n  ],\n  [\n    3,\n    4\n  ]\n]"
    );
}

#[test]
fn test_display_rank1() {
    let t = from_rank1(vec![1, 2, 3]);
    assert_eq!(t.to_display_string(), "[\n  1,\n  2,\n  3\n]");
}

#[test]
fn test_display_rank3() {
    let t = Tensor::new(vec![1, 2, 3, 4, 5, 6, 7, 8], vec![2, 2, 2]).unwrap();
    assert_eq!(
        t.to_display_string(),
        "[\n  [\n    [\n      1,\n      2\n    ],\n    [\n      3,\n      4\n    ]\n  ],\n  [\n    [\n      5,\n      6\n    ],\n    [\n      7,\n      8\n    ]\n  ]\n]"
    );
}

#[test]
fn test_display_empty_placeholder_independent_of_element_type() {
    let ints: Tensor<i32> = zeros(&[0]);
    let floats: Tensor<f64> = zeros(&[0]);
    assert_eq!(ints.to_display_string(), "[]\n");
    assert_eq!(floats.to_display_string(), "[]\n");

    let scalar_int = Tensor::new(vec![7], vec![]).unwrap();
    let scalar_float = Tensor::new(vec![1.5], vec![]).unwrap();
    assert_eq!(scalar_int.to_display_string(), "[]\n");
    assert_eq!(scalar_float.to_display_string(), "[]\n");

    let zero_inside: Tensor<i32> = zeros(&[2, 0, 3]);
    assert_eq!(zero_inside.to_display_string(), "[]\n");
}

#[test]
fn test_display_respects_strides() {
    let t = Tensor::new(vec![10, 20, 30, 40, 50, 60], vec![3, 2]).unwrap();
    assert_eq!(
        t.to_display_string(),
        "[\n  [\n    10,\n    20\n  ],\n  [\n    30,\n    40\n  ],\n  [\n    50,\n    60\n  ]\n]"
    );
}

#[test]
fn test_decimal_rendering() {
    assert_eq!(usize_to_decimal(0), "0");
    assert_eq!(usize_to_decimal(9), "9");
    assert_eq!(usize_to_decimal(10), "10");
    assert_eq!(usize_to_decimal(907), "907");
    assert_eq!(usize_to_decimal(1234567890), "1234567890");
}
