//! Two- and three-dimensional convolution against reference values.
use rtensors::access::{AsView, AsViewMut, TensorAccessMut};
use rtensors::conv::{temp_conv2d_fallback, temp_conv3d_fallback, ConvConfig2D, ConvConfig3D};
use rtensors::meta::Idx;
use rtensors::tensor::Tensor;
fn assert_tensor_close(actual: &Tensor<f32>, expected: &Tensor<f32>, tolerance: f32) {
    assert_eq!(actual.shape(), expected.shape(), "Shape mismatch");

    let actual_data: Vec<f32> = actual.buffer().iter().map(|&x| x).collect();
    let expected_data: Vec<f32> = expected.buffer().iter().map(|&x| x).collect();

    for (i, (a, e)) in actual_data.iter().zip(expected_data.iter()).enumerate() {
        assert!(
            (a - e).abs() < tolerance,
            "Mismatch at index {}: actual={}, expected={}, diff={}",
            i, a, e, (a - e).abs()
        );
    }
}

#[test]
fn test_conv2d_basic_no_padding_single_channel() {
    // Test 1: No padding, single batch, single input/output channel
    // Validated against PyTorch
    let input = Tensor::<f32>::from_buf(vec![
        1.0, 2.0, 3.0, 4.0, 5.0, 6.0, 7.0, 8.0, 9.0, 10.0, 
        11.0, 12.0, 13.0, 14.0, 15.0, 16.0, 
    ], vec![1, 1, 4, 4]).unwrap();

    let kernel = Tensor::<f32>::from_buf(vec![
        1.0, 0.0, -1.0, 1.0, 0.0, -1.0, 1.0, 0.0, -1.0, 
    ], vec![1, 1, 3, 3]).unwrap();

    let expected = Tensor::<f32>::from_buf(vec![
        -6.0, -6.0, -6.0, -6.0, 
    ], vec![1, 1, 2, 2]).unwrap();

    let config = ConvConfig2D::default();
    let output = input.conv2d(&kernel, &config).unwrap();

    assert_tensor_close(&output, &expected, 1e-5);
}

#[test]
fn test_conv2d_with_padding() {
    // Test 2: With padding=1, single batch, single input/output channel
    // Validated against PyTorch
    let input = Tensor::<f32>::from_buf(vec![
        1.0, 2.0, 3.0, 4.0, 5.0, 6.0, 7.0, 8.0, 9.0, 
    ], vec![1, 1, 3, 3]).unwrap();

    let kernel = Tensor::<f32>::from_buf(vec![
        1.0, 0.0, 0.0, 1.0, 
    ], vec![1, 1, 2, 2]).unwrap();

    let expected = Tensor::<f32>::from_buf(vec![
        1.0, 2.0, 3.0, 0.0, 4.0, 6.0, 8.0, 3.0, 7.0, 12.0, 
        14.0, 6.0, 0.0, 7.0, 8.0, 9.0, 
    ], vec![1, 1, 4, 4]).unwrap();

    let config = ConvConfig2D::default().padding(1);
    let output = input.conv2d(&kernel, &config).unwrap();

    assert_tensor_close(&output, &expected, 1e-5);
}

#[test]
fn test_conv2d_multi_batch() {
    // Test 3: Multi-batch (2), single input/output channel, no padding
    // Validated against PyTorch
    let input = Tensor::<f32>::from_buf(vec![
        1.0, 2.0, 3.0, 4.0, 5.0, 6.0, 7.0, 8.0, 9.0, 9.0, 
        8.0, 7.0, 6.0, 5.0, 4.0, 3.0, 2.0, 1.0, 
    ], vec![2, 1, 3, 3]).unwrap();

    let kernel = Tensor::<f32>::from_buf(vec![
        1.0, 0.0, 0.0, 1.0, 
    ], vec![1, 1, 2, 2]).unwrap();

    let expected = Tensor::<f32>::from_buf(vec![
        6.0, 8.0, 12.0, 14.0, 14.0, 12.0, 8.0, 6.0, 
    ], vec![2, 1, 2, 2]).unwrap();

    let config = ConvConfig2D::default();
    let output = input.conv2d(&kernel, &config).unwrap();

    assert_tensor_close(&output, &expected, 1e-5);
}

#[test]
fn test_conv2d_multi_input_channels() {
    // Test 4: Single batch, multi input channels (2), single output channel, no padding
    // Validated against PyTorch
    let input = Tensor::<f32>::from_buf(vec![
        1.0, 2.0, 3.0, 4.0, 5.0, 6.0, 7.0, 8.0, 9.0, 1.0, 
        1.0, 1.0, 1.0, 1.0, 1.0, 1.0, 1.0, 1.0, 
    ], vec![1, 2, 3, 3]).unwrap();

    let kernel = Tensor::<f32>::from_buf(vec![
        1.0, 0.0, 0.0, 1.0, 1.0, 1.0, 1.0, 1.0, 
    ], vec![1, 2, 2, 2]).unwrap();

    let expected = Tensor::<f32>::from_buf(vec![
        10.0, 12.0, 16.0, 18.0, 
    ], vec![1, 1, 2, 2]).unwrap();

    let config = ConvConfig2D::default();
    let output = input.conv2d(&kernel, &config).unwrap();

    assert_tensor_close(&output, &expected, 1e-5);
}

#[test]
fn test_conv2d_multi_output_channels() {
    // Test 5: Single batch, single input channel, multi output channels (2), no padding
    // Validated against PyTorch
    let input = Tensor::<f32>::from_buf(vec![
        1.0, 2.0, 3.0, 4.0, 5.0, 6.0, 7.0, 8.0, 9.0, 
    ], vec![1, 1, 3, 3]).unwrap();

    let kernel = Tensor::<f32>::from_buf(vec![
        1.0, 0.0, 0.0, 1.0, 0.0, 1.0, 1.0, 0.0, 
    ], vec![2, 1, 2, 2]).unwrap();

    let expected = Tensor::<f32>::from_buf(vec![
        6.0, 8.0, 12.0, 14.0, 6.0, 8.0, 12.0, 14.0, 
    ], vec![1, 2, 2, 2]).unwrap();

    let config = ConvConfig2D::default();
    let output = input.conv2d(&kernel, &config).unwrap();

    assert_tensor_close(&output, &expected, 1e-5);
}

#[test]
fn test_conv2d_complex_multi_everything_with_padding() {
    // Test 6: Multi batch (2), multi input (2), multi output (2), padding=1
    // Validated against PyTorch
    let input = Tensor::<f32>::from_buf(vec![
        1.0, 2.0, 3.0, 4.0, 5.0, 6.0, 7.0, 8.0, 8.0, 7.0, 
        6.0, 5.0, 4.0, 3.0, 2.0, 1.0, 
    ], vec![2, 2, 2, 2]).unwrap(); // [batch, in channels, height, width]

    let kernel = Tensor::<f32>::from_buf(vec![
        1.0, -1.0, -1.0, 1.0, 0.0, 1.0, 1.0, 0.0, 1.0, 0.0, 
        0.0, 1.0, 1.0, 1.0, 1.0, 1.0, 
    ], vec![2, 2, 2, 2]).unwrap(); // [out channels, in channels, KH, KW]

    let expected = Tensor::<f32>::from_buf(vec![
        1.0, 6.0, 4.0, 7.0, 13.0, 6.0, 4.0, 7.0, 4.0, 6.0, 
        13.0, 6.0, 15.0, 31.0, 16.0, 7.0, 18.0, 12.0, 8.0, 3.0, 
        -4.0, 2.0, 5.0, 3.0, -4.0, 2.0, 5.0, 12.0, 14.0, 3.0, 
        12.0, 23.0, 11.0, 2.0, 9.0, 6.0, 
    ], vec![2, 2, 3, 3]).unwrap();

    let config = ConvConfig2D::default().padding(1);
    let output = input.conv2d(&kernel, &config).unwrap();

    assert_tensor_close(&output, &expected, 1e-5);
}

#[test]
fn test_conv2d_with_stride() {
    // Test 7: Single batch/channel, stride=2, no padding
    // Validated against PyTorch
    let input = Tensor::<f32>::from_buf(vec![
        1.0, 2.0, 3.0, 4.0, 5.0, 6.0, 7.0, 8.0, 9.0, 10.0, 
        11.0, 12.0, 13.0, 14.0, 15.0, 16.0, 17.0, 18.0, 19.0, 20.0, 
        21.0, 22.0, 23.0, 24.0, 25.0, 
    ], vec![1, 1, 5, 5]).unwrap();

    let kernel = Tensor::<f32>::from_buf(vec![
        1.0, 0.0, -1.0, 1.0, 0.0, -1.0, 1.0, 0.0, -1.0, 
    ], vec![1, 1, 3, 3]).unwrap();

    let expected = Tensor::<f32>::from_buf(vec![
        -6.0, -6.0, -6.0, -6.0, 
    ], vec![1, 1, 2, 2]).unwrap();

    let config = ConvConfig2D::default().stride(2);
    let output = input.conv2d(&kernel, &config).unwrap();

    assert_tensor_close(&output, &expected, 1e-5);
}

#[test]
fn test_conv2d_asymmetric_padding() {
    // Test with different padding values for height and width
    let input = Tensor::<f32>::from_buf(vec![
        1.0, 2.0, 3.0, 
        4.0, 5.0, 6.0, 
    ], vec![1, 1, 2, 3]).unwrap();

    let kernel = Tensor::<f32>::from_buf(vec![
        1.0, 0.0, 
        0.0, 1.0, 
    ], vec![1, 1, 2, 2]).unwrap();

    let config = ConvConfig2D::default().padding((1, 2));
    let output = input.conv2d(&kernel, &config);

    assert!(output.is_ok());
    let output = output.unwrap();
    // Output shape should be (1, 1, 3, 6) with padding (1, 2)
    assert_eq!(*output.shape(), vec![1, 1, 3, 6]);
}

#[test]
fn test_conv2d_asymmetric_stride() {
    // Test with different stride values for height and width
    let input = Tensor::<f32>::from_buf(vec![
        1.0, 2.0, 3.0, 4.0, 5.0, 
        6.0, 7.0, 8.0, 9.0, 10.0, 
        11.0, 12.0, 13.0, 14.0, 15.0, 
        16.0, 17.0, 18.0, 19.0, 20.0, 
    ], vec![1, 1, 4, 5]).unwrap();

    let kernel = Tensor::<f32>::from_buf(vec![
        1.0, 0.0, 
        0.0, 1.0, 
    ], vec![1, 1, 2, 2]).unwrap();

    let config = ConvConfig2D::default().stride((2, 1));
    let output = input.conv2d(&kernel, &config);

    assert!(output.is_ok());
    let output = output.unwrap();
    // Output shape should be (1, 1, 2, 4) with stride (2, 1)
    assert_eq!(*output.shape(), vec![1, 1, 2, 4]);
}

#[test]
fn test_conv2d_shape_inference_from_3d() {
    // Test that 3D input [C, H, W] is automatically expanded to [1, C, H, W]
    let input = Tensor::<f32>::from_buf(vec![
        1.0, 2.0, 3.0, 
        4.0, 5.0, 6.0, 
        7.0, 8.0, 9.0, 
    ], vec![1, 3, 3]).unwrap();

    let kernel = Tensor::<f32>::from_buf(vec![
        1.0, 0.0, 
        0.0, 1.0, 
    ], vec![1, 1, 2, 2]).unwrap();

    let config = ConvConfig2D::default();
    let output = input.conv2d(&kernel, &config);

    assert!(output.is_ok());
}

#[test]
fn test_conv2d_invalid_channel_mismatch() {
    // Test that mismatched channels between input and kernel produces an error
    let input = Tensor::<f32>::from_buf(vec![
        1.0, 2.0, 3.0, 
        4.0, 5.0, 6.0, 
        7.0, 8.0, 9.0, 
    ], vec![1, 1, 3, 3]).unwrap();

    let kernel = Tensor::<f32>::from_buf(vec![
        1.0, 0.0, 
        0.0, 1.0,
        1.0, 0.0, 
        0.0, 1.0, 
    ], vec![1, 2, 2, 2]).unwrap();

    let config = ConvConfig2D::default();
    let output = input.conv2d(&kernel, &config);

    assert!(output.is_err());
}

#[test]
fn test_conv2d_zero_stride_error() {
    // Test that stride of 0 produces an error
    let input = Tensor::<f32>::from_buf(vec![
        1.0, 2.0, 3.0, 
        4.0, 5.0, 6.0, 
        7.0, 8.0, 9.0, 
    ], vec![1, 1, 3, 3]).unwrap();

    let kernel = Tensor::<f32>::from_buf(vec![
        1.0, 0.0, 
        0.0, 1.0, 
    ], vec![1, 1, 2, 2]).unwrap();

    let config = ConvConfig2D::default().stride((0, 1));
    let output = input.conv2d(&kernel, &config);

    assert!(output.is_err());
}

// ========== Conv3D Tests ==========

#[test]
fn test_conv3d_basic_no_padding_single_channel() {
    // Test 1: No padding, single batch, single input/output channel
    // Validated against PyTorch
    let input = Tensor::<f32>::from_buf(vec![
        1.0, 2.0, 3.0, 4.0, 5.0, 6.0, 7.0, 8.0, 9.0, 10.0, 
        11.0, 12.0, 13.0, 14.0, 15.0, 16.0, 17.0, 18.0, 19.0, 20.0, 
        21.0, 22.0, 23.0, 24.0, 25.0, 26.0, 27.0, 
    ], vec![1, 1, 3, 3, 3]).unwrap();

    let kernel = Tensor::<f32>::from_buf(vec![
        1.0, -1.0, 0.0, 1.0, 1.0, 0.0, -1.0, 1.0, 
    ], vec![1, 1, 2, 2, 2]).unwrap();

    let expected = Tensor::<f32>::from_buf(vec![
        15.0, 17.0, 21.0, 23.0, 33.0, 35.0, 39.0, 41.0, 
    ], vec![1, 1, 2, 2, 2]).unwrap();

    let config = ConvConfig3D::default();
    let output = input.conv3d(&kernel, &config).unwrap();

    assert_tensor_close(&output, &expected, 1e-5);
}

#[test]
fn test_conv3d_with_padding() {
    // Test 2: With padding=1, single batch, single input/output channel
    // Validated against PyTorch
    let input = Tensor::<f32>::from_buf(vec![
        1.0, 2.0, 3.0, 4.0, 5.0, 6.0, 7.0, 8.0, 
    ], vec![1, 1, 2, 2, 2]).unwrap();

    let kernel = Tensor::<f32>::from_buf(vec![
        1.0, 0.0, 0.0, 1.0, 1.0, 1.0, 1.0, 1.0, 
    ], vec![1, 1, 2, 2, 2]).unwrap();

    let expected = Tensor::<f32>::from_buf(vec![
        1.0, 3.0, 2.0, 4.0, 10.0, 6.0, 3.0, 7.0, 4.0, 6.0, 
        13.0, 6.0, 15.0, 31.0, 16.0, 7.0, 18.0, 12.0, 5.0, 6.0, 
        0.0, 7.0, 13.0, 6.0, 0.0, 7.0, 8.0, 
    ], vec![1, 1, 3, 3, 3]).unwrap();

    let config = ConvConfig3D::default().padding(1);
    let output = input.conv3d(&kernel, &config).unwrap();

    assert_tensor_close(&output, &expected, 1e-5);
}

#[test]
fn test_conv3d_multi_batch() {
    // Test 3: Multi-batch (2), single input/output channel, no padding
    // Validated against PyTorch
    let input = Tensor::<f32>::from_buf(vec![
        1.0, 2.0, 3.0, 4.0, 5.0, 6.0, 7.0, 8.0, 8.0, 7.0, 
        6.0, 5.0, 4.0, 3.0, 2.0, 1.0, 
    ], vec![2, 1, 2, 2, 2]).unwrap();

    let kernel = Tensor::<f32>::from_buf(vec![
        1.0, 0.0, 0.0, 1.0, 1.0, 1.0, 1.0, 1.0, 
    ], vec![1, 1, 2, 2, 2]).unwrap();

    let expected = Tensor::<f32>::from_buf(vec![
        31.0, 23.0, 
    ], vec![2, 1, 1, 1, 1]).unwrap();

    let config = ConvConfig3D::default();
    let output = input.conv3d(&kernel, &config).unwrap();

    assert_tensor_close(&output, &expected, 1e-5);
}

#[test]
fn test_conv3d_multi_input_channels() {
    // Test 4: Single batch, multi input channels (2), single output channel, no padding
    // Validated against PyTorch
    let input = Tensor::<f32>::from_buf(vec![
        1.0, 2.0, 3.0, 4.0, 5.0, 6.0, 7.0, 8.0, 1.0, 1.0, 
        1.0, 1.0, 1.0, 1.0, 1.0, 1.0, 
    ], vec![1, 2, 2, 2, 2]).unwrap();

    let kernel = Tensor::<f32>::from_buf(vec![
        1.0, 0.0, 0.0, 1.0, 1.0, 1.0, 1.0, 1.0, 1.0, 1.0, 
        1.0, 1.0, 0.0, 1.0, 1.0, 0.0, 
    ], vec![1, 2, 2, 2, 2]).unwrap();

    let expected = Tensor::<f32>::from_buf(vec![
        37.0, 
    ], vec![1, 1, 1, 1, 1]).unwrap();

    let config = ConvConfig3D::default();
    let output = input.conv3d(&kernel, &config).unwrap();

    assert_tensor_close(&output, &expected, 1e-5);
}

#[test]
fn test_conv3d_multi_output_channels() {
    // Test 5: Single batch, single input channel, multi output channels (2), no padding
    // Validated against PyTorch
    let input = Tensor::<f32>::from_buf(vec![
        1.0, 2.0, 3.0, 4.0, 5.0, 6.0, 7.0, 8.0, 
    ], vec![1, 1, 2, 2, 2]).unwrap();

    let kernel = Tensor::<f32>::from_buf(vec![
        1.0, 0.0, 0.0, 1.0, 1.0, 1.0, 1.0, 1.0, 0.0, 1.0, 
        1.0, 0.0, 1.0, 0.0, 0.0, 1.0, 
    ], vec![2, 1, 2, 2, 2]).unwrap();

    let expected = Tensor::<f32>::from_buf(vec![
        31.0, 18.0, 
    ], vec![1, 2, 1, 1, 1]).unwrap();

    let config = ConvConfig3D::default();
    let output = input.conv3d(&kernel, &config).unwrap();

    assert_tensor_close(&output, &expected, 1e-5);
}

#[test]
fn test_conv3d_with_stride() {
    // Test 6: Single batch/channel, stride=2, no padding
    // Validated against PyTorch
    let input = Tensor::<f32>::from_buf(vec![
        1.0, 2.0, 3.0, 4.0, 5.0, 6.0, 7.0, 8.0, 9.0, 10.0, 
        11.0, 12.0, 13.0, 14.0, 15.0, 16.0, 17.0, 18.0, 19.0, 20.0, 
        21.0, 22.0, 23.0, 24.0, 25.0, 26.0, 27.0, 28.0, 29.0, 30.0, 
        31.0, 32.0, 33.0, 34.0, 35.0, 36.0, 37.0, 38.0, 39.0, 40.0, 
        41.0, 42.0, 43.0, 44.0, 45.0, 46.0, 47.0, 48.0, 49.0, 50.0, 
        51.0, 52.0, 53.0, 54.0, 55.0, 56.0, 57.0, 58.0, 59.0, 60.0, 
        61.0, 62.0, 63.0, 64.0, 
    ], vec![1, 1, 4, 4, 4]).unwrap();

    let kernel = Tensor::<f32>::from_buf(vec![
        1.0, 0.0, 0.0, 1.0, 1.0, 1.0, 1.0, 1.0, 
    ], vec![1, 1, 2, 2, 2]).unwrap();

    let expected = Tensor::<f32>::from_buf(vec![
        85.0, 97.0, 133.0, 145.0, 277.0, 289.0, 325.0, 337.0, 
    ], vec![1, 1, 2, 2, 2]).unwrap();

    let config = ConvConfig3D::default().stride(2);
    let output = input.conv3d(&kernel, &config).unwrap();

    assert_tensor_close(&output, &expected, 1e-5);
}

#[test]
fn test_conv3d_complex_multi_everything_with_padding() {
    // Test 7: Multi batch (2), multi input (2), multi output (2), padding=1
    // Validated against PyTorch
    let input = Tensor::<f32>::from_buf(vec![
        1.0, 2.0, 3.0, 4.0, 5.0, 6.0, 7.0, 8.0, 2.0, 3.0, 
        4.0, 5.0, 6.0, 7.0, 8.0, 9.0, 9.0, 8.0, 7.0, 6.0, 
        5.0, 4.0, 3.0, 2.0, 8.0, 7.0, 6.0, 5.0, 4.0, 3.0, 
        2.0, 1.0, 
    ], vec![2, 2, 2, 2, 2]).unwrap();

    let kernel = Tensor::<f32>::from_buf(vec![
        1.0, -1.0, -1.0, 1.0, 0.0, 1.0, 1.0, 0.0, 1.0, 0.0, 
        0.0, 1.0, 1.0, 1.0, 1.0, 1.0, 1.0, 1.0, 1.0, 1.0, 
        0.0, 1.0, 1.0, 0.0, 1.0, -1.0, 0.0, 1.0, 1.0, 0.0, 
        -1.0, 1.0, 
    ], vec![2, 2, 2, 2, 2]).unwrap();

    let expected = Tensor::<f32>::from_buf(vec![
        2.0, 6.0, 5.0, 7.0, 19.0, 12.0, 7.0, 13.0, 5.0, 9.0, 
        22.0, 11.0, 25.0, 50.0, 25.0, 12.0, 28.0, 18.0, 11.0, 8.0, 
        -6.0, 10.0, 15.0, 5.0, -7.0, 7.0, 17.0, 2.0, 2.0, -1.0, 
        5.0, 8.0, 2.0, 3.0, 8.0, 5.0, 9.0, 12.0, 1.0, 19.0, 
        34.0, 15.0, 6.0, 22.0, 18.0, 11.0, 18.0, 6.0, 14.0, 34.0, 
        21.0, -1.0, 14.0, 17.0, 8.0, 24.0, 15.0, 23.0, 41.0, 18.0, 
        13.0, 17.0, 5.0, 21.0, 18.0, -1.0, 15.0, 30.0, 15.0, -2.0, 
        12.0, 12.0, 9.0, 2.0, -4.0, 0.0, 5.0, 5.0, -3.0, 3.0, 
        3.0, 8.0, 8.0, 1.0, 15.0, 22.0, 8.0, 7.0, 12.0, 5.0, 
        21.0, 28.0, 9.0, 21.0, 46.0, 25.0, 4.0, 18.0, 12.0, 9.0, 
        12.0, 4.0, 6.0, 16.0, 9.0, 1.0, 6.0, 3.0, 
    ], vec![2, 2, 3, 3, 3]).unwrap();

    let config = ConvConfig3D::default().padding(1);
    let output = input.conv3d(&kernel, &config).unwrap();

    assert_tensor_close(&output, &expected, 1e-5);
}

#[test]
fn fallback_2d_writes_into_the_output_view() {
    let input = Tensor::<f32>::from_buf((1..=16).map(|x| x as f32).collect(), vec![1, 1, 4, 4]).unwrap();
    let kernel = Tensor::<f32>::from_buf(vec![1.0, 0.0, 0.0, -1.0], vec![1, 1, 2, 2]).unwrap();
    let mut out = Tensor::<f32>::from_buf(vec![7.0; 9], vec![1, 1, 3, 3]).unwrap();
    {
        let mut view = out.view_mut();
        temp_conv2d_fallback(input.view(), kernel.view(), &ConvConfig2D::default(), &mut view).unwrap();
    }
    assert_eq!(out.buffer(), &vec![-5.0; 9]);
}

#[test]
fn fallback_3d_writes_into_the_output_view() {
    let input = Tensor::<f32>::from_buf((0..8).map(|x| x as f32).collect(), vec![1, 1, 2, 2, 2]).unwrap();
    let kernel = Tensor::<f32>::from_buf(vec![1.0; 8], vec![1, 1, 2, 2, 2]).unwrap();
    let mut out = Tensor::<f32>::from_buf(vec![0.0; 1], vec![1, 1, 1, 1, 1]).unwrap();
    {
        let mut view = out.view_mut();
        temp_conv3d_fallback(input.view(), kernel.view(), &ConvConfig3D::default(), &mut view).unwrap();
    }
    assert_eq!(out.buffer(), &vec![28.0]);
}

#[test]
fn fallback_2d_writes_through_a_transposed_output_view() {
    let input = Tensor::<f32>::from_buf((1..=9).map(|x| x as f32).collect(), vec![1, 1, 3, 3]).unwrap();
    let kernel = Tensor::<f32>::from_buf(vec![1.0, 0.0, 0.0, 0.0], vec![1, 1, 2, 2]).unwrap();
    let mut out = Tensor::<f32>::from_buf(vec![0.0; 4], vec![1, 1, 2, 2]).unwrap();
    {
        let mut view = out.permute_mut(&Idx::Coord(vec![0, 1, 3, 2])).unwrap();
        temp_conv2d_fallback(input.view(), kernel.view(), &ConvConfig2D::default(), &mut view).unwrap();
    }
    assert_eq!(out.buffer(), &vec![1.0, 4.0, 2.0, 5.0]);
}
