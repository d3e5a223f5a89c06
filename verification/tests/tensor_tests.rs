use tiny_neural::Tensor;

fn close(a: f64, b: f64) -> bool {
    (a - b).abs() < 1e-10
}

fn rows_of(t: &Tensor<f64>) -> Vec<Vec<f64>> {
    let mut out = Vec::new();
    for i in 0..t.rows() {
        let mut row = Vec::new();
        for j in 0..t.cols() {
            row.push(t.get(i, j));
        }
        out.push(row);
    }
    out
}

#[test]
fn new_fills_row_by_row() {
    let t = Tensor::new(2, 3, vec![1.0, 2.0, 3.0, 4.0, 5.0, 6.0]);
    assert_eq!(t.shape(), (2, 3));
    assert_eq!(t.rows(), 2);
    assert_eq!(t.cols(), 3);
    assert_eq!(rows_of(&t), vec![vec![1.0, 2.0, 3.0], vec![4.0, 5.0, 6.0]]);
}

#[test]
fn as_slice_reads_column_by_column() {
    let t = Tensor::new(2, 3, vec![1.0, 2.0, 3.0, 4.0, 5.0, 6.0]);
    assert_eq!(t.as_slice(), vec![1.0, 4.0, 2.0, 5.0, 3.0, 6.0]);
}

#[test]
fn as_slice_of_a_row_is_its_values() {
    let t = Tensor::new(1, 2, vec![3.0, 4.0]);
    assert_eq!(t.as_slice(), vec![3.0, 4.0]);
    let c = Tensor::new(3, 1, vec![7.0, 8.0, 9.0]);
    assert_eq!(c.as_slice(), vec![7.0, 8.0, 9.0]);
}

#[test]
fn reshape_keeps_row_major_order() {
    let t = Tensor::new(2, 3, vec![1.0, 2.0, 3.0, 4.0, 5.0, 6.0]);
    let r = t.reshape(3, 2);
    assert_eq!(r.shape(), (3, 2));
    assert_eq!(rows_of(&r), vec![vec![1.0, 2.0], vec![3.0, 4.0], vec![5.0, 6.0]]);
    let flat = t.reshape(1, 6);
    assert_eq!(rows_of(&flat), vec![vec![1.0, 2.0, 3.0, 4.0, 5.0, 6.0]]);
    // Reshaping to the own shape gives the tensor back.
    let square = Tensor::new(2, 2, vec![1.0, 2.0, 3.0, 4.0]);
    assert_eq!(rows_of(&square.reshape(2, 2)), rows_of(&square));
}

#[test]
fn transpose_swaps_indices() {
    let t = Tensor::new(2, 3, vec![1.0, 2.0, 3.0, 4.0, 5.0, 6.0]);
    let u = t.transpose();
    assert_eq!(u.shape(), (3, 2));
    assert_eq!(rows_of(&u), vec![vec![1.0, 4.0], vec![2.0, 5.0], vec![3.0, 6.0]]);
    // Transposing twice gives the tensor back.
    assert_eq!(rows_of(&u.transpose()), rows_of(&t));
    // Reading the transpose column by column gives the rows of `t`.
    assert_eq!(u.as_slice(), vec![1.0, 2.0, 3.0, 4.0, 5.0, 6.0]);
}

#[test]
fn element_wise_arithmetic() {
    let a = Tensor::new(1, 3, vec![1.0, 2.0, 3.0]);
    let b = Tensor::new(1, 3, vec![0.5, -1.0, 4.0]);
    assert_eq!(a.add(&b).as_slice(), vec![1.5, 1.0, 7.0]);
    assert_eq!(a.sub(&b).as_slice(), vec![0.5, 3.0, -1.0]);
    assert_eq!(a.mul_elem(&b).as_slice(), vec![0.5, -2.0, 12.0]);
    assert_eq!(a.scale(2.0).as_slice(), vec![2.0, 4.0, 6.0]);
}

#[test]
fn operators_add_and_subtract() {
    let a = Tensor::new(1, 2, vec![1.0, 2.0]);
    let b = Tensor::new(1, 2, vec![0.5, 4.0]);
    assert_eq!((&a + &b).as_slice(), vec![1.5, 6.0]);
    assert_eq!((&a - &b).as_slice(), vec![0.5, -2.0]);
}

#[test]
fn column_sums_add_up_to_the_sum() {
    let t = Tensor::new(3, 2, vec![1i64, -2, 3, 4, 5, -6]);
    assert_eq!(t.sum_axis(0).sum(), t.sum());
    assert_eq!(t.sum(), 5);
}

#[test]
fn sums_start_from_positive_zero() {
    let t: Tensor<f64> = Tensor::new(1, 2, vec![-0.0, -0.0]);
    assert!(t.sum_axis(1).get(0, 0).is_sign_positive());
    assert!(t.row_sum().get(0, 0).is_sign_positive());
}

#[test]
fn integer_tensors() {
    let a = Tensor::new(2, 2, vec![1i32, 2, 3, 4]);
    let b = Tensor::new(2, 2, vec![5i32, 6, 7, 8]);
    assert_eq!(a.add(&b).as_slice(), vec![6, 10, 8, 12]);
    assert_eq!(a.matmul(&b).as_slice(), vec![19, 43, 22, 50]);
    assert_eq!(a.sum(), 10);
}

#[test]
fn matmul_shapes_and_values() {
    let a = Tensor::new(2, 3, vec![1.0, 2.0, 3.0, 4.0, 5.0, 6.0]);
    let b = Tensor::new(3, 1, vec![1.0, 0.0, -1.0]);
    let c = a.matmul(&b);
    assert_eq!(c.shape(), (2, 1));
    assert!(close(c.get(0, 0), -2.0));
    assert!(close(c.get(1, 0), -2.0));
}

#[test]
fn matmul_with_empty_inner_dimension_is_zero() {
    let a: Tensor<f64> = Tensor::new(2, 0, vec![]);
    let b: Tensor<f64> = Tensor::new(0, 3, vec![]);
    let c = a.matmul(&b);
    assert_eq!(c.shape(), (2, 3));
    assert_eq!(c.as_slice(), vec![0.0; 6]);
}

#[test]
fn broadcast_repeats_a_row_or_a_column() {
    let row = Tensor::new(1, 3, vec![1.0, 2.0, 3.0]);
    assert_eq!(rows_of(&row.broadcast(2, 3)), vec![vec![1.0, 2.0, 3.0], vec![1.0, 2.0, 3.0]]);
    let col = Tensor::new(2, 1, vec![5.0, 6.0]);
    assert_eq!(rows_of(&col.broadcast(2, 3)), vec![vec![5.0, 5.0, 5.0], vec![6.0, 6.0, 6.0]]);
    let same = Tensor::new(2, 2, vec![1.0, 2.0, 3.0, 4.0]);
    assert_eq!(rows_of(&same.broadcast(2, 2)), rows_of(&same));
}

#[test]
fn map_applies_to_every_element() {
    let t = Tensor::new(2, 2, vec![-1.0, 2.0, -3.0, 4.0]);
    let r = t.map(|x| if x > 0.0 { x } else { 0.0 });
    assert_eq!(rows_of(&r), vec![vec![0.0, 2.0], vec![0.0, 4.0]]);
}

#[test]
fn sums() {
    let t = Tensor::new(2, 3, vec![1.0, 2.0, 3.0, 4.0, 5.0, 6.0]);
    assert!(close(t.sum(), 21.0));
    assert_eq!(rows_of(&t.row_sum()), vec![vec![6.0], vec![15.0]]);
    assert_eq!(rows_of(&t.sum_axis(0)), vec![vec![5.0, 7.0, 9.0]]);
    assert_eq!(rows_of(&t.sum_axis(1)), vec![vec![6.0], vec![15.0]]);
    // Summing over the columns is the row sum.
    assert_eq!(rows_of(&t.sum_axis(1)), rows_of(&t.row_sum()));
}

#[test]
fn sums_of_nothing_are_zero() {
    let t: Tensor<f64> = Tensor::new(0, 3, vec![]);
    assert_eq!(t.sum(), 0.0);
    assert_eq!(rows_of(&t.sum_axis(0)), vec![vec![0.0, 0.0, 0.0]]);
    let u: Tensor<f64> = Tensor::new(2, 0, vec![]);
    assert_eq!(rows_of(&u.row_sum()), vec![vec![0.0], vec![0.0]]);
}

#[test]
fn zeros_and_fill() {
    let z: Tensor<f64> = Tensor::zeros(2, 3);
    assert_eq!(z.shape(), (2, 3));
    assert_eq!(z.as_slice(), vec![0.0; 6]);
    let f = Tensor::from_element(3, 1, 1.5);
    assert_eq!(f.as_slice(), vec![1.5; 3]);
    let like: Tensor<f64> = Tensor::zeros_from(&f);
    assert_eq!(like.shape(), (3, 1));
    assert_eq!(like.as_slice(), vec![0.0; 3]);
}

#[test]
fn clone_keeps_shape_and_elements() {
    let t = Tensor::new(2, 2, vec![1.0, 2.0, 3.0, 4.0]);
    let c = t.clone();
    assert_eq!(c.shape(), t.shape());
    assert_eq!(rows_of(&c), rows_of(&t));
}
