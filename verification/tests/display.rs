//! Text rendering of tensors and views.
use rtensors::access::{AsView, AsViewMut, TensorAccess};
use rtensors::display::calculate_total_rows;
use rtensors::tensor::Tensor;

#[test]
fn test_scalar_print() {
    let tensor = Tensor::<f32>::scalar(42.0);
    let output = tensor.debug_string("f32");
    println!("Scalar: {}", output);
    assert!(output.contains("tensor"));
    assert!(output.contains("42"));
}

#[test]
fn test_1d_print() {
    let tensor = Tensor::<f32>::from_buf(vec![1.0, 2.0, 3.0], vec![3]).unwrap();
    let output = tensor.debug_string("f32");
    println!("1D: {}", output);
    assert!(output.contains("tensor"));
    assert!(output.contains("1"));
    assert!(output.contains("2"));
    assert!(output.contains("3"));
}

#[test]
fn test_2d_print() {
    let tensor = Tensor::<f32>::from_buf(vec![1.0, 2.0, 3.0, 4.0, 5.0, 6.0], vec![2, 3]).unwrap();
    let output = tensor.debug_string("f32");
    println!("2D:\n{}", output);
    assert!(output.contains("tensor"));
    // Should have nested structure
    assert!(output.contains("["));
}

#[test]
fn test_3d_print() {
    let tensor =
        Tensor::<f32>::from_buf(vec![1.0, 2.0, 3.0, 4.0, 5.0, 6.0, 7.0, 8.0], vec![2, 2, 2]).unwrap();
    let output = tensor.debug_string("f32");
    println!("3D:\n{}", output);
    assert!(output.contains("tensor"));
}

#[test]
fn test_view_print() {
    let tensor = Tensor::<i32>::from_buf(vec![1, 2, 3, 4], vec![2, 2]).unwrap();
    let view = tensor.view();
    let output = view.debug_string("i32");
    println!("View:\n{}", output);
    assert!(output.contains("tensor"));
}

#[test]
fn test_view_mut_print() {
    let mut tensor = Tensor::<i32>::from_buf(vec![1, 2, 3, 4], vec![2, 2]).unwrap();
    let view_mut = tensor.view_mut();
    let output = view_mut.debug_string("i32");
    println!("ViewMut:\n{}", output);
    assert!(output.contains("tensor"));
}

#[test]
fn test_non_contiguous_print() {
    // Create a contiguous tensor
    let tensor = Tensor::<f32>::from_buf(vec![1.0, 2.0, 3.0, 4.0, 5.0, 6.0], vec![2, 3]).unwrap();
    let view = tensor.view();
    // Even though this is contiguous, it still tests that views work
    let output = view.debug_string("f32");
    println!("View:\n{}", output);
    assert!(output.contains("tensor"));
}

#[test]
fn test_tensor_debug() {
    println!("=== 2D tensor (15x15) ===");
    let tensor_2d = Tensor::<f32>::from_buf(vec![1.0; 225], vec![15, 15]).unwrap();
    println!("{}\n", tensor_2d.debug_string("f32"));

    println!("=== 3D tensor (10x5x5) - 50 total rows ===");
    let tensor_3d = Tensor::<f32>::from_buf(vec![1.0; 250], vec![10, 5, 5]).unwrap();
    println!("{}\n", tensor_3d.debug_string("f32"));

    println!("=== 1D tensor (20) ===");
    let tensor_1d = Tensor::<f32>::from_buf(vec![1.0; 20], vec![20]).unwrap();
    println!("{}\n", tensor_1d.debug_string("f32"));

    println!("=== 1D tensor (20) ===");
    let tensor_1d = Tensor::<f32>::from_buf(vec![1.0; 400], vec![20, 20]).unwrap();
    println!("{}\n", tensor_1d.debug_string("f32"));
}

#[test]
fn display_exact_small_matrix() {
    let t = Tensor::<i32>::from_buf(vec![1, 2, 3, 4, 5, 6], vec![2, 3]).unwrap();
    assert_eq!(
        t.debug_string("i32"),
        "tensor([[1, 2, 3],\n       [4, 5, 6]], dtype=i32, device=cpu)"
    );
}

#[test]
fn display_exact_scalar_and_row() {
    let s = Tensor::<i32>::scalar(7);
    assert_eq!(s.debug_string("i32"), "tensor(7, dtype=i32, device=cpu)");
    let r = Tensor::<i32>::from_buf(vec![1, 2, 3], vec![3]).unwrap();
    assert_eq!(r.debug_string("i32"), "tensor([1, 2, 3], dtype=i32, device=cpu)");
}

#[test]
fn display_long_row_is_shortened() {
    let t = Tensor::<i32>::from_buf((0..12).collect(), vec![12]).unwrap();
    assert_eq!(
        t.debug_string("i32"),
        "tensor([0, 1, 2, 3, 4, ..., 7, 8, 9, 10, 11], dtype=i32, device=cpu)"
    );
}

#[test]
fn display_many_rows_show_first_and_last_five() {
    let t = Tensor::<i32>::from_buf((0..12).collect(), vec![12, 1]).unwrap();
    let out = t.debug_string("i32");
    assert!(out.contains("[4],\n       ...,\n       [7]"));
    assert!(!out.contains("[5]"));
    assert!(!out.contains("[6]"));
}

#[test]
fn display_3d_separates_blocks() {
    let t = Tensor::<i32>::from_buf(vec![1, 2, 3, 4], vec![2, 1, 2]).unwrap();
    assert_eq!(
        t.debug_string("i32"),
        "tensor([[[1, 2]],\n       \n       [[3, 4]]], dtype=i32, device=cpu)"
    );
}

#[test]
fn display_transposed_view_reads_through_strides() {
    let t = Tensor::<i32>::from_buf(vec![1, 2, 3, 4], vec![2, 2]).unwrap();
    let v = rtensors::access::TensorAccess::transpose(&t);
    assert_eq!(
        v.debug_string("i32"),
        "tensor([[1, 3],\n       [2, 4]], dtype=i32, device=cpu)"
    );
}

#[test]
fn total_rows_counts_all_but_last_dimension() {
    assert_eq!(calculate_total_rows(&vec![]), 1);
    assert_eq!(calculate_total_rows(&vec![7]), 1);
    assert_eq!(calculate_total_rows(&vec![3, 4, 5]), 12);
}

#[test]
fn printing_does_not_depend_on_the_layout() {
    let t = Tensor::<i32>::from_buf((1..=6).collect(), vec![2, 3]).unwrap();
    let v = t.transpose();
    let c = v.to_contiguous();
    assert_eq!(v.debug_string("i32"), c.debug_string("i32"));
    let text = c.debug_string("i32");
    assert!(text.contains("[1, 4]") && text.contains("[2, 5]") && text.contains("[3, 6]"));
}
