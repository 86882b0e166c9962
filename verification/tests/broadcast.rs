//! Broadcasting rules, broadcast arithmetic, scalar arithmetic and the L1 loss.
use rtensors::access::{AsView, TensorAccess};
use rtensors::broadcast::{
    broadcast_apply, compute_broadcasted_params, l1_loss, mean_l1_loss, sum_l1_loss, ReductionType,
};
use rtensors::error::TensorError;
use rtensors::meta::MetaTensor;
use rtensors::tensor::Tensor;

fn ones(shape: Vec<usize>) -> Tensor<f32> {
    let n = shape.iter().product();
    Tensor::<f32>::from_buf(vec![1.0; n], shape).unwrap()
}

#[test]
fn scalar_broadcasts_to_any_shape() {
    let scalar = Tensor::<f32>::scalar(5.0);
    let matrix = ones(vec![3, 4]);
    let result = scalar.add_tensor(&matrix);
    assert_eq!(result.shape(), &vec![3, 4]);
    assert!(result.buffer().iter().all(|&x| x == 6.0));
}

#[test]
fn vector_to_matrix() {
    let vector = Tensor::<f32>::from_buf(vec![1.0, 2.0, 3.0], vec![3]).unwrap();
    let matrix = ones(vec![4, 3]);
    let result = vector.add_tensor(&matrix);
    assert_eq!(result.shape(), &vec![4, 3]);
    assert_eq!(&result.buffer()[0..3], &[2.0, 3.0, 4.0]);
    assert_eq!(&result.buffer()[9..12], &[2.0, 3.0, 4.0]);
}

#[test]
fn row_plus_column_is_matrix() {
    let row = Tensor::<f32>::from_buf(vec![1.0, 2.0, 3.0, 4.0], vec![1, 4]).unwrap();
    let col = Tensor::<f32>::from_buf(vec![10.0, 20.0, 30.0], vec![3, 1]).unwrap();
    let result = row.add_tensor(&col);
    assert_eq!(result.shape(), &vec![3, 4]);
    assert_eq!(
        result.buffer(),
        &vec![11.0, 12.0, 13.0, 14.0, 21.0, 22.0, 23.0, 24.0, 31.0, 32.0, 33.0, 34.0]
    );
    let through_views = row.view().add_tensor(&col.view());
    assert_eq!(through_views.buffer(), result.buffer());
}

#[test]
fn higher_dimensions() {
    let a = ones(vec![1, 3, 1]);
    let b = ones(vec![2, 3, 4]);
    let result = a.add_tensor(&b);
    assert_eq!(result.shape(), &vec![2, 3, 4]);
    assert!(result.buffer().iter().all(|&x| x == 2.0));
}

#[test]
fn broadcast_sub_mul_div() {
    let a = Tensor::<f64>::from_buf(vec![6.0, 8.0], vec![2]).unwrap();
    let b = Tensor::<f64>::from_buf(vec![2.0], vec![1]).unwrap();
    assert_eq!(a.sub_tensor(&b).buffer(), &vec![4.0, 6.0]);
    assert_eq!(a.mul_tensor(&b).buffer(), &vec![12.0, 16.0]);
    assert_eq!(a.div_tensor(&b).buffer(), &vec![3.0, 4.0]);
    assert_eq!(b.sub_tensor(&a).buffer(), &vec![-4.0, -6.0]);
}

#[test]
fn broadcast_params_and_errors() {
    let a = MetaTensor::new(vec![3, 1], vec![1, 1], 0);
    let b = MetaTensor::new(vec![4], vec![1], 2);
    let (s, sa, sb) = compute_broadcasted_params(&a, &b).unwrap();
    assert_eq!(s, vec![3, 4]);
    assert_eq!(sa, vec![1, 0]);
    assert_eq!(sb, vec![0, 1]);
    let c = MetaTensor::new(vec![3], vec![1], 0);
    assert!(matches!(compute_broadcasted_params(&b, &c), Err(TensorError::BroadcastError(_))));
}

#[test]
fn broadcast_apply_reads_pairs() {
    let a = Tensor::<i32>::from_buf(vec![1, 2, 3], vec![3, 1]).unwrap();
    let b = Tensor::<i32>::from_buf(vec![10, 20], vec![2]).unwrap();
    let r = broadcast_apply(&a.view(), &b.view(), &|x: i32, y: i32| x * 100 + y).unwrap();
    assert_eq!(r.shape(), &vec![3, 2]);
    assert_eq!(r.buffer(), &vec![110, 120, 210, 220, 310, 320]);
    let c = Tensor::<i32>::from_buf(vec![1, 2, 3, 4], vec![4]).unwrap();
    assert!(matches!(
        broadcast_apply(&a.view(), &c.view(), &|x: i32, y: i32| x + y).map(|t| t.size()),
        Ok(12)
    ));
    let d = Tensor::<i32>::from_buf(vec![1, 2], vec![2, 1]).unwrap();
    assert!(matches!(
        broadcast_apply(&a.view(), &d.view(), &|x: i32, y: i32| x + y),
        Err(TensorError::BroadcastError(_))
    ));
}

#[test]
fn scalar_arithmetic() {
    let mut a = ones(vec![2, 2]);
    a.mul_scalar_inplace(3.0);
    a.add_scalar_inplace(2.0);
    a.sub_scalar_inplace(1.0);
    assert!(a.buffer().iter().all(|&x| x == 4.0));
    let b = a.mul_scalar(2.0);
    assert!(b.buffer().iter().all(|&x| x == 8.0));
    let c = b.div_scalar(4.0);
    assert!(c.buffer().iter().all(|&x| x == 2.0));
}

#[test]
fn scalar_arithmetic_on_a_strided_view_leaves_the_rest() {
    let mut t = Tensor::<f64>::from_buf(vec![1.0, 2.0, 3.0, 4.0], vec![4]).unwrap();
    {
        let mut v = rtensors::access::TensorAccessMut::slice_mut(
            &mut t,
            0,
            rtensors::meta::Slice::full().step(2),
        )
        .unwrap();
        v.add_scalar_inplace(10.0);
    }
    assert_eq!(t.buffer(), &vec![11.0, 2.0, 13.0, 4.0]);
}

#[test]
fn l1_losses() {
    let input = Tensor::<f64>::from_buf(vec![1.0, -2.0, 3.0], vec![3]).unwrap();
    let target = Tensor::<f64>::from_buf(vec![0.0, 0.0, 0.0], vec![3]).unwrap();
    let mean = mean_l1_loss(&input, &target);
    assert_eq!(mean.shape(), &Vec::<usize>::new());
    assert_eq!(mean.item().unwrap(), 2.0);
    let sum = sum_l1_loss(&input, &target);
    assert_eq!(sum.item().unwrap(), 6.0);
    let each = l1_loss(&input, &target, ReductionType::Elementwise);
    assert_eq!(each.buffer(), &vec![1.0, 2.0, 3.0]);
}

#[test]
fn broadcast_shape_is_symmetric_and_absorbs_scalars() {
    let pairs = [
        (vec![3, 1], vec![4]),
        (vec![1, 3, 1], vec![2, 3, 4]),
        (vec![5], vec![5]),
        (vec![], vec![2, 2]),
    ];
    for (x, y) in pairs.iter() {
        let a = MetaTensor::new(x.clone(), vec![0; x.len()], 0);
        let b = MetaTensor::new(y.clone(), vec![0; y.len()], 0);
        let (s1, _, _) = compute_broadcasted_params(&a, &b).unwrap();
        let (s2, _, _) = compute_broadcasted_params(&b, &a).unwrap();
        assert_eq!(s1, s2);
    }
    let scalar = MetaTensor::new(vec![], vec![], 0);
    let m = MetaTensor::new(vec![2, 3], vec![3, 1], 0);
    assert_eq!(compute_broadcasted_params(&scalar, &m).unwrap().0, vec![2, 3]);
    assert_eq!(compute_broadcasted_params(&m, &m).unwrap().0, vec![2, 3]);
}
