//! Construction, element access, slicing, shape manipulation, copies and
//! images.
use rtensors::access::{AsTensor, AsView, AsViewMut, TensorAccess, TensorAccessMut};
use rtensors::conv::PaddingType;
use rtensors::error::TensorError;
use rtensors::io::{ImageData, ImageLoader, ImageWriter, IntoImage};
use rtensors::meta::{Idx, MetaTensor, Slice};
use rtensors::tensor::Tensor;
use rtensors::view_as::fan_in_out;

fn arange(rows: usize, cols: usize) -> Tensor<i32> {
    let data: Vec<i32> = (0..(rows * cols) as i32).collect();
    Tensor::<i32>::from_buf(data, vec![rows, cols]).unwrap()
}

fn at(c: &[usize]) -> Idx {
    Idx::Coord(c.to_vec())
}

#[test]
fn fill_constructors() {
    let zeros = Tensor::<i32>::zeros(vec![3, 4]);
    assert_eq!(zeros.shape(), &vec![3, 4]);
    assert_eq!(zeros.buffer(), &vec![0; 12]);
    let ones = Tensor::<u8>::ones(vec![2, 2]);
    assert_eq!(ones.buffer(), &vec![1u8; 4]);
    let min_vals = Tensor::<i32>::min(vec![10, 5]);
    assert_eq!(min_vals.size(), 50);
    assert!(min_vals.buffer().iter().all(|&x| x == i32::MIN));
    let max_vals = Tensor::<u16>::max(vec![5, 5]);
    assert!(max_vals.buffer().iter().all(|&x| x == u16::MAX));
    assert_eq!(max_vals.strides(), &vec![5isize, 1]);
}

#[test]
fn from_buf_and_special_shapes() {
    let t = Tensor::<f64>::from_buf(vec![1.0, 2.0, 3.0, 4.0], vec![2, 2]).unwrap();
    assert_eq!(t.shape(), &vec![2, 2]);
    assert_eq!(t.strides(), &vec![2isize, 1]);
    assert_eq!(t.offset(), 0);
    assert_eq!(t.get(&at(&[1, 0])), Ok(3.0));

    let bad = Tensor::<f64>::from_buf(vec![1.0, 2.0, 3.0], vec![2, 2]);
    assert!(matches!(bad, Err(TensorError::InvalidShape(_))));

    let scalar = Tensor::<f32>::scalar(42.0);
    assert_eq!(scalar.rank(), 0);
    assert_eq!(scalar.item(), Ok(42.0));

    let column = Tensor::<f32>::column(vec![1.0, 2.0, 3.0]);
    assert_eq!(column.shape(), &vec![3]);
    assert_eq!(column.get(&Idx::At(2)), Ok(3.0));

    let row = Tensor::<f32>::row(vec![1.0, 2.0, 3.0]);
    assert_eq!(row.shape(), &vec![1, 3]);
    assert_eq!(row.get(&at(&[0, 1])), Ok(2.0));
}

#[test]
fn get_and_set_elements() {
    let tensor = Tensor::<i32>::zeros(vec![4, 4]);
    assert_eq!(tensor.get(&at(&[2, 3])), Ok(0));

    let mut tensor = Tensor::<i32>::zeros(vec![4, 4]);
    assert_eq!(tensor.set(&at(&[1, 1]), 42), Ok(()));
    assert_eq!(tensor.get(&at(&[1, 1])), Ok(42));
    assert_eq!(tensor.get(&at(&[1, 2])), Ok(0));
    assert_eq!(tensor.buffer()[5], 42);

    assert!(matches!(tensor.get(&at(&[1])), Err(TensorError::WrongDims(_))));
    assert!(matches!(tensor.get(&at(&[4, 0])), Err(TensorError::IdxOutOfBounds(_))));
    assert!(matches!(tensor.set(&at(&[3, 4]), 1), Err(TensorError::IdxOutOfBounds(_))));
    assert!(matches!(tensor.item(), Err(TensorError::WrongDims(_))));

    let v = Tensor::<i32>::from_buf(vec![7, 8, 9], vec![3]).unwrap();
    assert_eq!(v.get(&Idx::At(2)), Ok(9));
}

#[test]
fn readme_slicing() {
    let tensor = arange(10, 10);
    let rows = |s: Slice| -> Vec<i32> {
        let v = tensor.slice(0, s).unwrap();
        v.contiguous().buffer().iter().step_by(10).copied().collect()
    };
    assert_eq!(rows(Slice::range(2, 5)), vec![20, 30, 40]);
    assert_eq!(rows(Slice::range(0, 3)), vec![0, 10, 20]);
    assert_eq!(rows(Slice::range_to(5)), vec![0, 10, 20, 30, 40]);
    assert_eq!(rows(Slice::range_from(2)).len(), 8);
    assert_eq!(rows(Slice::full()).len(), 10);
    assert_eq!(rows(Slice::range_inclusive(2, 5)), vec![20, 30, 40, 50]);
    assert_eq!(rows(Slice::range(5, 2)), vec![50, 40, 30]);
    assert_eq!(rows(Slice::full().step(-1)), vec![90, 80, 70, 60, 50, 40, 30, 20, 10, 0]);
    assert_eq!(rows(Slice::full().step(2)), vec![0, 20, 40, 60, 80]);
    assert_eq!(rows(Slice::new(Some(8), Some(2), -2)), vec![80, 60, 40]);

    let row = tensor.slice(0, Slice::at(3)).unwrap();
    assert_eq!(row.meta().shape(), &vec![10]);
    assert_eq!(row.get(&Idx::At(4)), Ok(34));
    let col = tensor.slice_at(1, 2).unwrap();
    assert_eq!(col.meta().shape(), &vec![10]);
    assert_eq!(col.meta().strides(), &vec![10isize]);
    assert_eq!(col.get(&Idx::At(7)), Ok(72));

    let sliced = tensor.slice(0, Slice::range(2, 5)).unwrap();
    assert_eq!(sliced.meta().shape(), &vec![3, 10]);
    assert_eq!(sliced.meta().offset(), 20);
}

#[test]
fn slicing_errors() {
    let tensor = arange(4, 3);
    assert!(tensor.slice(2, Slice::full()).is_err());
    assert!(matches!(tensor.slice(0, Slice::at(4)), Err(TensorError::IdxOutOfBounds(_))));
    assert!(tensor.slice(0, Slice::new(None, None, 0)).is_err());
}

#[test]
fn slice_mut_writes_into_the_tensor() {
    let mut tensor = arange(3, 3);
    {
        let mut row = tensor.slice_mut(0, Slice::at(1)).unwrap();
        row.set(&Idx::At(2), -1).unwrap();
    }
    assert_eq!(tensor.get(&at(&[1, 2])), Ok(-1));
    assert_eq!(tensor.buffer(), &vec![0, 1, 2, 3, 4, -1, 6, 7, 8]);
}

#[test]
fn readme_shape_manipulation() {
    let tensor = Tensor::<i32>::ones(vec![2, 3, 4]);
    let permuted = tensor.permute(&Idx::Coord(vec![2, 0, 1])).unwrap();
    assert_eq!(permuted.meta().shape(), &vec![4, 2, 3]);
    assert_eq!(permuted.meta().strides(), &vec![1isize, 12, 4]);
    let transposed = tensor.transpose();
    assert_eq!(transposed.meta().shape(), &vec![4, 3, 2]);
    let unsqueezed = tensor.unsqueeze();
    assert_eq!(unsqueezed.meta().shape(), &vec![1, 2, 3, 4]);
    let unsqueezed = tensor.unsqueeze_at(1).unwrap();
    assert_eq!(unsqueezed.meta().shape(), &vec![2, 1, 3, 4]);
    let squeezed = unsqueezed.squeeze();
    assert_eq!(squeezed.meta().shape(), &vec![2, 3, 4]);
    let squeezed = unsqueezed.squeeze_at(1).unwrap();
    assert_eq!(squeezed.meta().shape(), &vec![2, 3, 4]);

    assert!(matches!(unsqueezed.squeeze_at(0), Err(TensorError::InvalidDim(_))));
    assert!(matches!(tensor.unsqueeze_at(4), Err(TensorError::InvalidDim(_))));
    assert!(matches!(tensor.permute(&Idx::Coord(vec![0, 1])), Err(TensorError::WrongDims(_))));
    assert!(matches!(tensor.permute(&Idx::Coord(vec![0, 1, 1])), Err(TensorError::InvalidDim(_))));
}

#[test]
fn in_place_unit_dimensions() {
    let mut t = arange(2, 3);
    t.unsqueeze_inplace();
    assert_eq!(t.shape(), &vec![1, 2, 3]);
    assert_eq!(t.unsqueeze_at_inplace(3), Ok(()));
    assert_eq!(t.shape(), &vec![1, 2, 3, 1]);
    assert!(matches!(t.unsqueeze_at_inplace(9), Err(TensorError::InvalidDim(_))));
    t.squeeze_inplace();
    assert_eq!(t.shape(), &vec![2, 3]);
    assert_eq!(t.get(&at(&[1, 2])), Ok(5));
}

#[test]
fn transpose_then_contiguous_copies_in_new_order() {
    let t = arange(2, 3);
    let c = t.transpose().contiguous();
    assert_eq!(c.shape(), &vec![3, 2]);
    assert_eq!(c.buffer(), &vec![0, 3, 1, 4, 2, 5]);
    assert_eq!(c.strides(), &vec![2isize, 1]);
    let owned = t.transpose().owned();
    assert_eq!(owned.get(&at(&[2, 1])), Ok(5));
}

#[test]
fn reshape_keeps_row_major_order() {
    let t = arange(2, 3);
    let r = t.transpose().reshape(vec![6]).unwrap();
    assert_eq!(r.buffer(), &vec![0, 3, 1, 4, 2, 5]);
    assert!(matches!(t.reshape(vec![4]), Err(TensorError::InvalidShape(_))));
    let r = t.reshape(vec![3, 1, 2]).unwrap();
    assert_eq!(r.get(&at(&[2, 0, 1])), Ok(5));
}

#[test]
fn view_as_shares_the_buffer() {
    let t = arange(2, 6);
    let v = t.view_as(vec![3, 4]).unwrap();
    assert_eq!(v.meta().shape(), &vec![3, 4]);
    assert_eq!(v.meta().strides(), &vec![4isize, 1]);
    assert_eq!(v.get(&at(&[2, 3])), Ok(11));
    assert!(matches!(t.view_as(vec![5]), Err(TensorError::InvalidShape(_))));
    let tr = t.transpose();
    assert!(matches!(tr.view_as(vec![12]), Err(TensorError::ContiguityError(_))));

    let col = t.slice(1, Slice::at(0)).unwrap();
    assert!(matches!(col.view_as(vec![2]), Err(TensorError::ContiguityError(_))));
    let unit = t.unsqueeze();
    assert_eq!(unit.view_as(vec![12]).unwrap().get(&Idx::At(7)), Ok(7));

    let mut m = arange(2, 2);
    {
        let mut w = m.view_as_mut(vec![4]).unwrap();
        w.set(&Idx::At(3), 30).unwrap();
    }
    assert_eq!(m.get(&at(&[1, 1])), Ok(30));
}

#[test]
fn fan_in_and_fan_out() {
    assert_eq!(fan_in_out(&vec![3, 5]), (5, 3));
    assert_eq!(fan_in_out(&vec![7]), (7, 1));
    assert_eq!(fan_in_out(&vec![2, 3, 4]), (4, 6));
}

#[test]
fn permute_with_inverse_restores_layout() {
    let t = Tensor::<i32>::ones(vec![2, 3, 4]);
    let p = t.permute(&Idx::Coord(vec![2, 0, 1])).unwrap();
    let back = p.permute(&Idx::Coord(vec![1, 2, 0])).unwrap();
    assert_eq!(back.meta().shape(), t.shape());
    assert_eq!(back.meta().strides(), t.strides());
    let once = t.transpose();
    let tt = once.transpose();
    assert_eq!(tt.meta().shape(), t.shape());
    assert_eq!(tt.meta().strides(), t.strides());
}

#[test]
fn squeeze_undoes_unsqueeze_at() {
    let t = arange(2, 3);
    for d in 0..=2 {
        let u = t.unsqueeze_at(d).unwrap();
        let s = u.squeeze_at(d).unwrap();
        assert_eq!(s.meta().shape(), t.shape());
        assert_eq!(s.meta().strides(), t.strides());
    }
}

#[test]
fn set_changes_only_its_element() {
    let mut t = arange(3, 4);
    t.set(&at(&[2, 1]), 100).unwrap();
    for i in 0..3 {
        for j in 0..4 {
            let expected = if (i, j) == (2, 1) { 100 } else { (i * 4 + j) as i32 };
            assert_eq!(t.get(&at(&[i, j])), Ok(expected));
        }
    }
}

#[test]
fn test_image_cycle() {
    let width = 64;
    let height = 64;
    let buffer = vec![255u8; width * height * 3];
    let tensor = Tensor::<u8>::from_buf(buffer, vec![height, width, 3]).unwrap();
    let image = tensor.into_rgb_image().unwrap();
    let tensor2 = Tensor::<u8>::from_image_data(image);
    assert!(tensor.eq(&tensor2));
}

#[test]
fn equality_compares_layout_and_elements() {
    let a = arange(2, 3);
    let b = arange(2, 3);
    assert!(a.eq(&b));
    let c = Tensor::<i32>::from_buf((0..6).collect(), vec![3, 2]).unwrap();
    assert!(!a.eq(&c));
    let mut d = arange(2, 3);
    d.set(&at(&[1, 1]), 40).unwrap();
    assert!(!a.eq(&d));
    let e = a.transpose().contiguous();
    assert!(!a.eq(&e));
}

#[test]
fn rgb_image_keeps_size_and_samples() {
    let data: Vec<u8> = (0..24).collect();
    let tensor = Tensor::<u8>::from_buf(data.clone(), vec![2, 4, 3]).unwrap();
    let img = tensor.into_rgb_image().unwrap();
    assert_eq!((img.width, img.height, img.channels), (4, 2, 3));
    assert_eq!(img.pixels, data);

    let gray = Tensor::<u8>::from_buf(vec![0; 8], vec![2, 4, 1]).unwrap();
    assert!(matches!(gray.into_rgb_image(), Err(TensorError::InvalidShape(_))));
    let flat = Tensor::<u8>::from_buf(vec![0; 8], vec![8]).unwrap();
    assert!(matches!(flat.into_rgb_image(), Err(TensorError::InvalidShape(_))));
}

#[test]
fn images_for_writing_by_shape() {
    let data: Vec<u8> = (0..6).collect();
    let t = Tensor::<u8>::from_buf(data.clone(), vec![2, 3]).unwrap();
    let img = t.image_for_writing().unwrap();
    assert_eq!((img.width, img.height, img.channels), (3, 2, 1));
    assert_eq!(img.pixels, data);

    let t = Tensor::<u8>::from_buf(data.clone(), vec![3, 2, 1]).unwrap();
    let img = t.image_for_writing().unwrap();
    assert_eq!((img.width, img.height, img.channels), (2, 3, 1));

    let t = Tensor::<u8>::from_buf(data.clone(), vec![1, 2, 3]).unwrap();
    let img = t.image_for_writing().unwrap();
    assert_eq!((img.width, img.height, img.channels), (2, 1, 3));

    let t = Tensor::<u8>::from_buf(data.clone(), vec![3, 1, 2]).unwrap();
    assert!(matches!(t.image_for_writing(), Err(TensorError::InvalidShape(_))));
    let t = Tensor::<u8>::from_buf(data, vec![6]).unwrap();
    assert!(matches!(t.image_for_writing(), Err(TensorError::InvalidShape(_))));
}

#[test]
fn loaded_images_are_height_width_channels() {
    let img = ImageData { width: 3, height: 2, channels: 4, pixels: (0..24).collect() };
    let t = Tensor::<u8>::from_image_data(img);
    assert_eq!(t.shape(), &vec![2, 3, 4]);
    assert_eq!(t.get(&at(&[1, 2, 3])), Ok(23));
}

#[test]
fn pad_surrounds_with_zeros() {
    let t = Tensor::<i32>::from_buf(vec![1, 2, 3, 4], vec![2, 2]).unwrap();
    let p = t.pad(vec![1, 1], &PaddingType::Zeros).unwrap();
    assert_eq!(p.shape(), &vec![4, 4]);
    assert_eq!(
        p.buffer(),
        &vec![0, 0, 0, 0, 0, 1, 2, 0, 0, 3, 4, 0, 0, 0, 0, 0]
    );
    let v = Tensor::<i32>::from_buf(vec![1, 2, 3], vec![3]).unwrap();
    let p = v.pad(vec![2], &PaddingType::Zeros).unwrap();
    assert_eq!(p.buffer(), &vec![0, 0, 1, 2, 3, 0, 0]);
    let p = t.pad(vec![0, 2], &PaddingType::Zeros).unwrap();
    assert_eq!(p.shape(), &vec![2, 6]);
    assert_eq!(p.buffer(), &vec![0, 0, 1, 2, 0, 0, 0, 0, 3, 4, 0, 0]);
}

#[test]
fn pad_reads_views_in_logical_order() {
    let t = arange(2, 3);
    let tr = t.transpose();
    let p = tr.pad(vec![1, 0], &PaddingType::Zeros).unwrap();
    assert_eq!(p.shape(), &vec![5, 2]);
    assert_eq!(p.buffer(), &vec![0, 0, 0, 3, 1, 4, 2, 5, 0, 0]);
    assert!(matches!(t.pad(vec![1], &PaddingType::Zeros), Err(TensorError::WrongDims(_))));
}

#[test]
fn zero_padding_is_a_copy() {
    let t = arange(3, 2);
    let p = t.pad(vec![0, 0], &PaddingType::Zeros).unwrap();
    assert_eq!(p.shape(), t.shape());
    assert_eq!(p.buffer(), t.buffer());
}

#[test]
fn into_dtype_converts_every_entry_and_keeps_the_layout() {
    let t = Tensor::<u8>::from_parts(vec![0, 1, 2, 255, 7, 9], MetaTensor::new(vec![3, 2], vec![1, 3], 0));
    let f = t.into_dtype::<f32>().unwrap();
    assert_eq!(f.shape(), t.shape());
    assert_eq!(f.strides(), t.strides());
    assert_eq!(f.offset(), t.offset());
    assert_eq!(f.buffer(), &vec![0.0f32, 1.0, 2.0, 255.0, 7.0, 9.0]);
    let back = f.into_dtype::<u8>().unwrap();
    assert_eq!(back.buffer(), &vec![0u8, 1, 2, 255, 7, 9]);
}

#[test]
fn into_dtype_refuses_an_unrepresentable_entry() {
    let a = Tensor::<i32>::from_buf(vec![3, -1, 4], vec![3]).unwrap();
    assert!(matches!(a.into_dtype::<u8>(), Err(TensorError::ConversionError(_))));
    let big = Tensor::<i32>::from_buf(vec![300], vec![1]).unwrap();
    assert!(matches!(big.into_dtype::<u8>(), Err(TensorError::ConversionError(_))));
    assert_eq!(big.into_dtype::<i64>().unwrap().buffer(), &vec![300i64]);
}
