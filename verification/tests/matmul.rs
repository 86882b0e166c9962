//! Matrix, dot and outer products, and the layout classes of matrices.
use rtensors::access::TensorAccess;
use rtensors::error::TensorError;
use rtensors::matmul::{contiguity_type, ContiguityTypes};
use rtensors::meta::MetaTensor;
use rtensors::tensor::Tensor;

#[test]
fn matmul_two_by_two() {
    let a = Tensor::<f64>::from_buf(vec![1.0, 2.0, 3.0, 4.0], vec![2, 2]).unwrap();
    let b = Tensor::<f64>::from_buf(vec![5.0, 6.0, 7.0, 8.0], vec![2, 2]).unwrap();
    let c = a.matmul(&b).unwrap();
    assert_eq!(c.shape(), &vec![2, 2]);
    assert_eq!(c.buffer(), &vec![19.0, 22.0, 43.0, 50.0]);
}

#[test]
fn matmul_rectangular_f32() {
    let a = Tensor::<f32>::from_buf(vec![1.0, 2.0, 3.0, 4.0, 5.0, 6.0], vec![2, 3]).unwrap();
    let b = Tensor::<f32>::from_buf(vec![1.0, 0.0, 0.0, 1.0, 1.0, 1.0], vec![3, 2]).unwrap();
    let c = a.matmul(&b).unwrap();
    assert_eq!(c.shape(), &vec![2, 2]);
    assert_eq!(c.buffer(), &vec![4.0, 5.0, 10.0, 11.0]);
}

#[test]
fn matmul_batched() {
    let a = Tensor::<f64>::from_buf(vec![1.0, 0.0, 0.0, 1.0, 2.0, 0.0, 0.0, 2.0], vec![2, 2, 2]).unwrap();
    let b = Tensor::<f64>::from_buf(vec![1.0, 2.0, 3.0, 4.0, 1.0, 2.0, 3.0, 4.0], vec![2, 2, 2]).unwrap();
    let c = a.matmul(&b).unwrap();
    assert_eq!(c.shape(), &vec![2, 2, 2]);
    assert_eq!(c.buffer(), &vec![1.0, 2.0, 3.0, 4.0, 2.0, 4.0, 6.0, 8.0]);
}

#[test]
fn matmul_reads_through_a_transposed_view() {
    let a = Tensor::<f64>::from_buf(vec![1.0, 2.0, 3.0, 4.0], vec![2, 2]).unwrap();
    let at = a.transpose();
    let id = Tensor::<f64>::from_buf(vec![1.0, 0.0, 0.0, 1.0], vec![2, 2]).unwrap();
    let c = at.matmul(&id).unwrap();
    assert_eq!(c.buffer(), &vec![1.0, 3.0, 2.0, 4.0]);
}

#[test]
fn matmul_errors() {
    let v = Tensor::<f64>::from_buf(vec![1.0, 2.0], vec![2]).unwrap();
    let m = Tensor::<f64>::from_buf(vec![1.0, 2.0, 3.0, 4.0], vec![2, 2]).unwrap();
    assert!(matches!(v.matmul(&m), Err(TensorError::InvalidShape(_))));
    assert!(matches!(m.matmul(&v), Err(TensorError::InvalidShape(_))));
    let m3 = Tensor::<f64>::from_buf(vec![1.0; 8], vec![2, 2, 2]).unwrap();
    assert!(matches!(m.matmul(&m3), Err(TensorError::InvalidShape(_))));
    let m3b = Tensor::<f64>::from_buf(vec![1.0; 12], vec![3, 2, 2]).unwrap();
    assert!(matches!(m3.matmul(&m3b), Err(TensorError::SizeMismatch(_))));
    let k3 = Tensor::<f64>::from_buf(vec![1.0; 6], vec![3, 2]).unwrap();
    assert!(matches!(m.matmul(&k3), Err(TensorError::SizeMismatch(_))));
}

#[test]
fn dot_and_outer() {
    let a = Tensor::<f64>::from_buf(vec![1.0, 2.0, 3.0], vec![3]).unwrap();
    let b = Tensor::<f64>::from_buf(vec![4.0, 5.0, 6.0], vec![3]).unwrap();
    let d = a.dot(&b).unwrap();
    assert_eq!(d.shape(), &Vec::<usize>::new());
    assert_eq!(d.item().unwrap(), 32.0);
    let o = a.outer(&b).unwrap();
    assert_eq!(o.shape(), &vec![3, 3]);
    assert_eq!(o.buffer(), &vec![4.0, 5.0, 6.0, 8.0, 10.0, 12.0, 12.0, 15.0, 18.0]);
    let c = Tensor::<f64>::from_buf(vec![1.0, 2.0], vec![2]).unwrap();
    assert!(matches!(a.dot(&c), Err(TensorError::SizeMismatch(_))));
    let m = Tensor::<f64>::from_buf(vec![1.0, 2.0, 3.0, 4.0], vec![2, 2]).unwrap();
    assert!(matches!(a.dot(&m), Err(TensorError::InvalidShape(_))));
    assert!(matches!(m.outer(&a), Err(TensorError::InvalidShape(_))));
}

#[test]
fn contiguity_classes() {
    let row = MetaTensor::new(vec![2, 3], vec![3, 1], 0);
    assert_eq!(contiguity_type(&row), ContiguityTypes::RowMajor);
    let col = MetaTensor::new(vec![2, 3], vec![1, 2], 0);
    assert_eq!(contiguity_type(&col), ContiguityTypes::ColumnMajor);
    let strided = MetaTensor::new(vec![2, 3], vec![6, 2], 0);
    assert_eq!(contiguity_type(&strided), ContiguityTypes::Strided);
    let vector = MetaTensor::new(vec![5], vec![7], 0);
    assert_eq!(contiguity_type(&vector), ContiguityTypes::RowMajor);
    let flat_batch = MetaTensor::new(vec![2, 3, 2, 2], vec![12, 4, 2, 1], 0);
    assert_eq!(contiguity_type(&flat_batch), ContiguityTypes::RowMajor);
    let split_batch = MetaTensor::new(vec![2, 3, 2, 2], vec![24, 4, 2, 1], 0);
    assert_eq!(contiguity_type(&split_batch), ContiguityTypes::Strided);
}

#[test]
fn matmul_of_a_column_major_view_to_box() {
    let a = Tensor::<f32>::from_buf(vec![1., 2., 3., 4., 5., 6.], vec![3, 2]).unwrap();
    let v = a.transpose();
    let b = Tensor::<f32>::from_buf(vec![1.0; 3], vec![3, 1]).unwrap();
    let r = v.matmul(&b).unwrap();
    assert_eq!(r.shape(), &vec![2, 1]);
    assert_eq!(r.to_box().unwrap(), vec![9.0, 12.0]);
}
