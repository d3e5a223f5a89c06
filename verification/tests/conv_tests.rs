use tiny_neural::{Conv1D, Conv2D, Pool2D, PoolType, Tensor};

fn close(a: f64, b: f64) -> bool {
    (a - b).abs() < 1e-10
}

fn conv1d(kernel_size: usize, in_channels: usize, stride: usize, padding: usize) -> Conv1D<f64> {
    Conv1D {
        kernel: Tensor::from_element(kernel_size, in_channels, 0.5),
        stride,
        padding,
    }
}

fn conv2d(kernel_h: usize, kernel_w: usize, stride: usize, padding: usize) -> Conv2D<f64> {
    Conv2D::from_kernel(Tensor::from_element(kernel_h, kernel_w, 0.25), stride, padding)
}

fn max_of(values: &[f64]) -> f64 {
    values.iter().cloned().fold(f64::NEG_INFINITY, f64::max)
}

#[test]
fn test_conv1d_output_shape() {
    let conv = conv1d(3, 1, 1, 0);
    let input = Tensor::new(10, 1, vec![1.0; 10]);
    let out = conv.forward(&input);
    assert_eq!(out.rows(), 8); // (10 - 3) / 1 + 1
    assert_eq!(out.cols(), 1);
}

#[test]
fn test_conv1d_with_stride() {
    let conv = conv1d(3, 1, 2, 0);
    let input = Tensor::new(10, 1, vec![1.0; 10]);
    let out = conv.forward(&input);
    assert_eq!(out.rows(), 4); // (10 - 3) / 2 + 1
}

#[test]
fn test_conv1d_with_padding() {
    let conv = conv1d(3, 1, 1, 1);
    let input = Tensor::new(10, 1, vec![1.0; 10]);
    let out = conv.forward(&input);
    assert_eq!(out.rows(), 10); // (10 + 2 - 3) / 1 + 1
}

#[test]
fn test_conv1d_known_values() {
    let kernel = Tensor::new(3, 1, vec![1.0, 0.0, -1.0]);
    let conv = Conv1D { kernel, stride: 1, padding: 0 };
    let input = Tensor::new(5, 1, vec![1.0, 2.0, 3.0, 4.0, 5.0]);
    let out = conv.forward(&input);
    assert_eq!(out.rows(), 3);
    assert!(close(out.get(0, 0), -2.0));
    assert!(close(out.get(1, 0), -2.0));
    assert!(close(out.get(2, 0), -2.0));
}

#[test]
fn test_conv2d_output_shape() {
    let conv = conv2d(3, 3, 1, 0);
    let input = Tensor::new(16, 1, vec![1.0; 16]); // 4x4
    let (oh, ow, out) = conv.forward(&input, 4, 4);
    assert_eq!((oh, ow), (2, 2));
    assert_eq!(out.rows(), 4);
}

#[test]
fn test_conv2d_known_values() {
    let kernel = Tensor::new(2, 2, vec![1.0, 0.0, 0.0, 1.0]);
    let conv = Conv2D::from_kernel(kernel, 1, 0);
    let input = Tensor::new(9, 1, vec![1.0, 2.0, 3.0, 4.0, 5.0, 6.0, 7.0, 8.0, 9.0]);
    let (oh, ow, out) = conv.forward(&input, 3, 3);
    assert_eq!((oh, ow), (2, 2));
    // (0,0): 1*1 + 2*0 + 4*0 + 5*1 = 6
    assert!(close(out.get(0, 0), 6.0));
    // (1,1): 5*1 + 6*0 + 8*0 + 9*1 = 14
    assert!(close(out.get(3, 0), 14.0));
}

#[test]
fn test_maxpool2d_shape() {
    let pool = Pool2D::new(2, 2, PoolType::Max);
    let input = Tensor::new(16, 1, vec![1.0; 16]); // 4x4
    let (oh, ow, windows) = pool.windows(&input, 4, 4);
    assert_eq!((oh, ow), (2, 2));
    assert_eq!(windows.len(), 4);
}

#[test]
fn test_avgpool2d_shape() {
    let pool = Pool2D::new(2, 2, PoolType::Avg);
    let input = Tensor::new(16, 1, vec![1.0; 16]); // 4x4
    let (oh, ow, _) = pool.windows(&input, 4, 4);
    assert_eq!((oh, ow), (2, 2));
}

#[test]
fn test_maxpool2d_values() {
    let pool = Pool2D::new(2, 2, PoolType::Max);
    let input = Tensor::new(4, 1, vec![1.0, 3.0, 2.0, 4.0]); // 2x2
    let (oh, ow, windows) = pool.windows(&input, 2, 2);
    assert_eq!((oh, ow), (1, 1));
    assert!(close(max_of(&windows[0][0]), 4.0));
}

#[test]
fn test_conv2d_with_padding() {
    let conv = conv2d(3, 3, 1, 1);
    let input = Tensor::new(9, 1, vec![1.0; 9]); // 3x3
    let (oh, ow, _) = conv.forward(&input, 3, 3);
    assert_eq!((oh, ow), (3, 3)); // (3 + 2 - 3) / 1 + 1
}

#[test]
fn conv1d_padding_taps_add_nothing() {
    // Kernel [1, 2, 3] over [10, 20] with padding 1: the first output sees
    // padding, 10, 20 -> 2*10 + 3*20; the second sees 10, 20, padding.
    let kernel = Tensor::new(3, 1, vec![1.0, 2.0, 3.0]);
    let conv = Conv1D { kernel, stride: 1, padding: 1 };
    let input = Tensor::new(2, 1, vec![10.0, 20.0]);
    let out = conv.forward(&input);
    assert_eq!(out.shape(), (2, 1));
    assert!(close(out.get(0, 0), 80.0));
    assert!(close(out.get(1, 0), 50.0));
}

#[test]
fn conv1d_channels_use_their_own_kernel_column() {
    let kernel = Tensor::new(1, 2, vec![2.0, -1.0]);
    let conv = Conv1D { kernel, stride: 1, padding: 0 };
    let input = Tensor::new(2, 2, vec![1.0, 5.0, 3.0, 7.0]);
    let out = conv.forward(&input);
    assert_eq!(out.shape(), (2, 2));
    assert!(close(out.get(0, 0), 2.0));
    assert!(close(out.get(0, 1), -5.0));
    assert!(close(out.get(1, 0), 6.0));
    assert!(close(out.get(1, 1), -7.0));
}

#[test]
fn conv1d_integer_elements() {
    let kernel = Tensor::new(2, 1, vec![1i64, 1]);
    let conv = Conv1D { kernel, stride: 2, padding: 0 };
    let input = Tensor::new(6, 1, vec![1i64, 2, 3, 4, 5, 6]);
    let out = conv.forward(&input);
    assert_eq!(out.as_slice(), vec![3, 7, 11]);
}

#[test]
fn conv2d_stride_two() {
    let kernel = Tensor::new(1, 1, vec![2.0]);
    let conv = Conv2D::from_kernel(kernel, 2, 0);
    let input = Tensor::new(9, 1, vec![1.0, 2.0, 3.0, 4.0, 5.0, 6.0, 7.0, 8.0, 9.0]);
    let (oh, ow, out) = conv.forward(&input, 3, 3);
    assert_eq!((oh, ow), (2, 2));
    assert_eq!(out.as_slice(), vec![2.0, 6.0, 14.0, 18.0]);
}

#[test]
fn conv2d_padding_corner_sees_one_pixel() {
    // 3x3 kernel of ones, padding 1: the top-left output sums the top-left
    // 2x2 block of the image.
    let conv = Conv2D::from_kernel(Tensor::from_element(3, 3, 1.0), 1, 1);
    let input = Tensor::new(9, 1, vec![1.0, 2.0, 3.0, 4.0, 5.0, 6.0, 7.0, 8.0, 9.0]);
    let (_, _, out) = conv.forward(&input, 3, 3);
    assert!(close(out.get(0, 0), 12.0));
    assert!(close(out.get(4, 0), 45.0));
}

#[test]
fn pool_windows_hold_pixels_row_by_row_per_channel() {
    let pool = Pool2D::new(2, 1, PoolType::Avg);
    // 2x3 image, two channels: channel 1 is channel 0 times ten.
    let input = Tensor::new(
        6,
        2,
        vec![1.0, 10.0, 2.0, 20.0, 3.0, 30.0, 4.0, 40.0, 5.0, 50.0, 6.0, 60.0],
    );
    let (oh, ow, windows) = pool.windows(&input, 2, 3);
    assert_eq!((oh, ow), (1, 2));
    assert_eq!(windows[0][0], vec![1.0, 2.0, 4.0, 5.0]);
    assert_eq!(windows[1][0], vec![2.0, 3.0, 5.0, 6.0]);
    assert_eq!(windows[1][1], vec![20.0, 30.0, 50.0, 60.0]);
}

#[test]
fn pool_new_keeps_its_settings() {
    let pool = Pool2D::new(3, 2, PoolType::Avg);
    assert_eq!(pool.pool_size, 3);
    assert_eq!(pool.stride, 2);
    assert_eq!(pool.pool_type, PoolType::Avg);
}
