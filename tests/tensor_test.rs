use polarlight::tensor::{Tensor, TensorError};

fn tensor(shape: Vec<i32>, data: Vec<i64>) -> Tensor<i64> {
    Tensor::build(shape, data).unwrap()
}

fn seq(n: i64) -> Vec<i64> {
    (1..=n).collect()
}

#[test]
fn test_tensor() {
    let t = tensor(vec![2, 2, 3], vec![1, 2, 3, 4, 5, 6, 7, 8, 9, 10, 11, 12]);
    let tmp1 = tensor(vec![2, 3], vec![1, 2, 3, 4, 5, 6]);
    let tmp2 = tensor(vec![2, 3], vec![7, 8, 9, 10, 11, 12]);
    let tmpmul = tensor(vec![3, 4], vec![1, 2, 3, 4, 5, 6, 7, 8, 9, 10, 11, 12]);

    let tmp_add = tmp1.add(&tmp2).unwrap();
    assert_eq!(tmp_add.shape(), vec![2, 3]);
    assert_eq!(tmp_add.components(), vec![8, 10, 12, 14, 16, 18]);

    let tmp_sub = tmp1.sub(&tmp2).unwrap();
    assert_eq!(tmp_sub.components(), vec![-6, -6, -6, -6, -6, -6]);

    let tmp_div = tmp1.div(&tmp2).unwrap();
    assert_eq!(tmp_div.components(), vec![0, 0, 0, 0, 0, 0]);
    let tmp_div_back = tmp2.div(&tmp1).unwrap();
    assert_eq!(tmp_div_back.components(), vec![7, 4, 3, 2, 2, 2]);

    let tmp_mul = tmp1.mul(&tmp2).unwrap();
    assert_eq!(tmp_mul.components(), vec![7, 16, 27, 40, 55, 72]);

    let tmp_matmul = tmp1.matmul(&tmpmul).unwrap();
    assert_eq!(tmp_matmul.shape(), vec![2, 4]);
    assert_eq!(tmp_matmul.components(), vec![38, 44, 50, 56, 83, 98, 113, 128]);

    let tmp_transpose = tmp1.transpose().unwrap();
    assert_eq!(tmp_transpose.shape(), vec![3, 2]);
    assert_eq!(tmp_transpose.components(), vec![1, 4, 2, 5, 3, 6]);

    let tmp_matmul_transpose = tmp1.matmul(&tmp2.transpose().unwrap()).unwrap();
    assert_eq!(tmp_matmul_transpose.shape(), vec![2, 2]);
    assert_eq!(tmp_matmul_transpose.components(), vec![50, 68, 122, 167]);

    let tmp_reshape = t.reshape(vec![12]).unwrap();
    assert_eq!(tmp_reshape.shape(), vec![12]);
    assert_eq!(tmp_reshape.components(), seq(12));

    let tmp_reshape_auto = t.reshape(vec![2, -1]).unwrap();
    assert_eq!(tmp_reshape_auto.shape(), vec![2, 6]);

    let tmp1_unsqueezed = Tensor::unsqueeze(tmp1, 2).unwrap();
    assert_eq!(tmp1_unsqueezed.shape(), vec![2, 3, 1]);
    let tmp2_unsqueezed = Tensor::unsqueeze(tmp2, 2).unwrap();

    let tmp_concat = Tensor::cat(vec![&tmp1_unsqueezed, &tmp2_unsqueezed], 2).unwrap();
    assert_eq!(tmp_concat.shape(), vec![2, 3, 2]);
    assert_eq!(tmp_concat.components(), vec![1, 7, 2, 8, 3, 9, 4, 10, 5, 11, 6, 12]);
}

#[test]
fn build_keeps_shape_and_components() {
    let t = tensor(vec![2, 3], vec![1, 2, 3, 4, 5, 6]);
    assert_eq!(t.dim(), 2);
    assert_eq!(t.shape(), vec![2, 3]);
    assert_eq!(t.components(), vec![1, 2, 3, 4, 5, 6]);
    assert_eq!(t.shape().iter().product::<i32>() as usize, t.components().len());
}

#[test]
fn build_rejects_length_mismatch() {
    let r = Tensor::build(vec![2, 2], vec![1i64, 2, 3]);
    assert_eq!(r.err(), Some(TensorError::ShapeMismatch));
}

#[test]
fn build_rejects_non_positive_sizes() {
    assert_eq!(Tensor::build(vec![2, 0], Vec::<i64>::new()).err(), Some(TensorError::ShapeMismatch));
    assert_eq!(Tensor::build(vec![-1, -1], vec![5i64]).err(), Some(TensorError::ShapeMismatch));
    assert_eq!(Tensor::build(vec![3], Vec::<i64>::new()).err(), Some(TensorError::ShapeMismatch));
}

#[test]
fn build_scalar_has_rank_zero() {
    let t = tensor(vec![], vec![42]);
    assert_eq!(t.dim(), 0);
    assert_eq!(t.get(vec![]), Ok(42));
}

#[test]
fn get_uses_row_major_offsets() {
    let t = tensor(vec![2, 2, 3], seq(12));
    assert_eq!(t.get(vec![1, 1, 2]), Ok(12));
    assert_eq!(t.get(vec![0, 0, 0]), Ok(1));
    assert_eq!(t.get(vec![1, 0, 1]), Ok(8));
    assert_eq!(t.get(vec![0, 1, 2]), Ok(6));
}

#[test]
fn get_rejects_bad_indices() {
    let t = tensor(vec![2, 2, 3], seq(12));
    assert_eq!(t.get(vec![2, 0, 0]), Err(TensorError::IndexOutOfBounds));
    assert_eq!(t.get(vec![0, 0, 3]), Err(TensorError::IndexOutOfBounds));
    assert_eq!(t.get(vec![0, -1, 0]), Err(TensorError::IndexOutOfBounds));
    assert_eq!(t.get(vec![0, 0]), Err(TensorError::IndexOutOfBounds));
}

#[test]
fn stride_table_is_suffix_products() {
    assert_eq!(Tensor::<i64>::get_shape_pi(&vec![2, 3, 4]), vec![12, 4, 1]);
    assert_eq!(Tensor::<i64>::get_shape_pi(&vec![5]), vec![1]);
    assert_eq!(Tensor::<i64>::get_shape_pi(&vec![]), Vec::<usize>::new());
}

#[test]
fn add_then_sub_round_trips() {
    let a = tensor(vec![2, 2], vec![1, -2, 3, i64::MAX]);
    let b = tensor(vec![2, 2], vec![10, 20, -30, 5]);
    let back = a.add(&b).unwrap().sub(&b).unwrap();
    assert_eq!(back.shape(), a.shape());
    assert_eq!(back.components(), a.components());
}

#[test]
fn elementwise_wraps_on_overflow() {
    let a = tensor(vec![1], vec![i64::MAX]);
    let b = tensor(vec![1], vec![1]);
    assert_eq!(a.add(&b).unwrap().components(), vec![i64::MIN]);
    let c = tensor(vec![1], vec![i64::MIN]);
    assert_eq!(c.sub(&b).unwrap().components(), vec![i64::MAX]);
}

#[test]
fn elementwise_rejects_rank_and_shape_mismatch() {
    let a = tensor(vec![2, 3], seq(6));
    let b = tensor(vec![6], seq(6));
    let c = tensor(vec![3, 2], seq(6));
    assert_eq!(a.add(&b).err(), Some(TensorError::RankMismatch));
    assert_eq!(a.sub(&b).err(), Some(TensorError::RankMismatch));
    assert_eq!(a.mul(&b).err(), Some(TensorError::RankMismatch));
    assert_eq!(a.div(&b).err(), Some(TensorError::RankMismatch));
    assert_eq!(a.add(&c).err(), Some(TensorError::ShapeMismatch));
    assert_eq!(a.sub(&c).err(), Some(TensorError::ShapeMismatch));
    assert_eq!(a.mul(&c).err(), Some(TensorError::ShapeMismatch));
    assert_eq!(a.div(&c).err(), Some(TensorError::ShapeMismatch));
}

#[test]
fn division_truncates_toward_zero() {
    let a = tensor(vec![4], vec![7, -7, 7, -7]);
    let b = tensor(vec![4], vec![2, 2, -2, -2]);
    assert_eq!(a.div(&b).unwrap().components(), vec![3, -3, -3, 3]);
}

#[test]
fn transpose_twice_is_identity() {
    let a = tensor(vec![2, 3], seq(6));
    let twice = a.transpose().unwrap().transpose().unwrap();
    assert_eq!(twice.shape(), vec![2, 3]);
    assert_eq!(twice.components(), seq(6));
}

#[test]
fn transpose_needs_rank_two() {
    let a = tensor(vec![6], seq(6));
    assert_eq!(a.transpose().err(), Some(TensorError::Unimplemented));
    let b = tensor(vec![1, 2, 3], seq(6));
    assert_eq!(b.transpose().err(), Some(TensorError::Unimplemented));
}

#[test]
fn matmul_shape_law_and_identity() {
    let a = tensor(vec![2, 2], vec![1, 2, 3, 4]);
    let id = tensor(vec![2, 2], vec![1, 0, 0, 1]);
    let r = a.matmul(&id).unwrap();
    assert_eq!(r.shape(), vec![2, 2]);
    assert_eq!(r.components(), vec![1, 2, 3, 4]);

    let m = tensor(vec![3, 5], (1..=15).collect());
    let n = tensor(vec![5, 4], (1..=20).collect());
    assert_eq!(m.matmul(&n).unwrap().shape(), vec![3, 4]);
}

#[test]
fn matmul_errors() {
    let a = tensor(vec![2, 3], seq(6));
    let b = tensor(vec![2, 3], seq(6));
    assert_eq!(a.matmul(&b).err(), Some(TensorError::ShapeMismatch));
    let v = tensor(vec![6], seq(6));
    assert_eq!(a.matmul(&v).err(), Some(TensorError::RankMismatch));
    assert_eq!(v.matmul(&v).err(), Some(TensorError::Unimplemented));
    let c = tensor(vec![1, 2, 3], seq(6));
    assert_eq!(c.matmul(&c).err(), Some(TensorError::Unimplemented));
}

#[test]
fn reshape_infers_one_axis() {
    let t = tensor(vec![2, 2, 3], seq(12));
    let r = t.reshape(vec![2, -1]).unwrap();
    assert_eq!(r.shape(), vec![2, 6]);
    assert_eq!(r.components(), seq(12));
    let r = t.reshape(vec![-1, 4, 1]).unwrap();
    assert_eq!(r.shape(), vec![3, 4, 1]);
}

#[test]
fn reshape_rejects_bad_targets() {
    let t = tensor(vec![2, 2, 3], seq(12));
    assert_eq!(t.reshape(vec![-1, -1]).err(), Some(TensorError::InvalidReshape));
    assert_eq!(t.reshape(vec![-1, -1, 2]).err(), Some(TensorError::InvalidReshape));
    assert_eq!(t.reshape(vec![5, -1]).err(), Some(TensorError::InvalidReshape));
    assert_eq!(t.reshape(vec![0, -1]).err(), Some(TensorError::InvalidReshape));
    assert_eq!(t.reshape(vec![24, -1]).err(), Some(TensorError::InvalidReshape));
    assert_eq!(t.reshape(vec![5, 2]).err(), Some(TensorError::ShapeMismatch));
}

#[test]
fn unsqueeze_inserts_unit_axis() {
    let t = tensor(vec![2, 3], seq(6));
    let front = Tensor::unsqueeze(t, 0).unwrap();
    assert_eq!(front.shape(), vec![1, 2, 3]);
    assert_eq!(front.components(), seq(6));
    let t = tensor(vec![2, 3], seq(6));
    let middle = Tensor::unsqueeze(t, 1).unwrap();
    assert_eq!(middle.shape(), vec![2, 1, 3]);
    let t = tensor(vec![2, 3], seq(6));
    assert_eq!(Tensor::unsqueeze(t, 3).err(), Some(TensorError::IndexOutOfBounds));
}

#[test]
fn cat_stacks_along_last_axis() {
    let a = Tensor::unsqueeze(tensor(vec![2, 3], seq(6)), 2).unwrap();
    let b = Tensor::unsqueeze(tensor(vec![2, 3], (7..=12).collect()), 2).unwrap();
    let first = tensor(vec![2, 3], seq(6));
    let second = tensor(vec![2, 3], (7..=12).collect());
    let r = Tensor::cat(vec![&a, &b], 2).unwrap();
    assert_eq!(r.shape(), vec![2, 3, 2]);
    for i in 0..2 {
        for j in 0..3 {
            assert_eq!(r.get(vec![i, j, 0]).unwrap(), first.get(vec![i, j]).unwrap());
            assert_eq!(r.get(vec![i, j, 1]).unwrap(), second.get(vec![i, j]).unwrap());
        }
    }
}

#[test]
fn cat_stacks_along_first_axis() {
    let a = Tensor::unsqueeze(tensor(vec![2, 2], vec![1, 2, 3, 4]), 0).unwrap();
    let b = Tensor::unsqueeze(tensor(vec![2, 2], vec![5, 6, 7, 8]), 0).unwrap();
    let c = Tensor::unsqueeze(tensor(vec![2, 2], vec![9, 10, 11, 12]), 0).unwrap();
    let r = Tensor::cat(vec![&a, &b, &c], 0).unwrap();
    assert_eq!(r.shape(), vec![3, 2, 2]);
    assert_eq!(r.components(), seq(12));
}

#[test]
fn cat_errors() {
    let a = Tensor::unsqueeze(tensor(vec![2, 3], seq(6)), 2).unwrap();
    let b = Tensor::unsqueeze(tensor(vec![3, 2], seq(6)), 2).unwrap();
    let wide = tensor(vec![2, 3, 2], seq(12));
    let flat = tensor(vec![6], seq(6));
    assert_eq!(Tensor::<i64>::cat(vec![], 0).err(), Some(TensorError::Unimplemented));
    assert_eq!(Tensor::cat(vec![&a], 3).err(), Some(TensorError::Unimplemented));
    assert_eq!(Tensor::cat(vec![&a, &b], 2).err(), Some(TensorError::ShapeMismatch));
    assert_eq!(Tensor::cat(vec![&a, &flat], 2).err(), Some(TensorError::ShapeMismatch));
    assert_eq!(Tensor::cat(vec![&a, &wide], 2).err(), Some(TensorError::Unimplemented));
}

#[test]
fn i32_elements_work_too() {
    let a = Tensor::build(vec![2], vec![i32::MAX, 3]).unwrap();
    let b = Tensor::build(vec![2], vec![1i32, 4]).unwrap();
    assert_eq!(a.add(&b).unwrap().components(), vec![i32::MIN, 7]);
    assert_eq!(a.mul(&b).unwrap().components(), vec![i32::MAX, 12]);
}

#[test]
fn text_of_rank_two() {
    let t = tensor(vec![2, 3], vec![1, -2, 3, 4, 5, 6]);
    assert_eq!(t.to_text(), "shape [2, 3]\n[[1, -2, 3], \n[4, 5, 6]]\n\n");
}

#[test]
fn text_of_rank_one() {
    let t = tensor(vec![3], vec![10, 0, -7]);
    assert_eq!(t.to_text(), "shape [3]\n[10, 0, -7]\n\n\n");
}

#[test]
fn text_of_rank_three() {
    let t = tensor(vec![2, 2, 1], seq(4));
    assert_eq!(t.to_text(), "shape [2, 2, 1]\n[[[1], \n[2]], \n[[3], \n[4]]]\n\n");
}

#[test]
fn text_of_rank_four() {
    let t = tensor(vec![1, 1, 2, 2], seq(4));
    assert_eq!(t.to_text(), "shape [1, 1, 2, 2]\n[[[[1, 2], \n[3, 4]]]]\n\n");
}

#[test]
fn text_of_unsupported_ranks_has_no_body() {
    let scalar = tensor(vec![], vec![5]);
    assert_eq!(scalar.to_text(), "shape []\n\n\n");
    let five = tensor(vec![1, 1, 1, 1, 2], vec![1, 2]);
    assert_eq!(five.to_text(), "shape [1, 1, 1, 1, 2]\n\n\n");
}

#[test]
fn text_of_extreme_values() {
    let t = tensor(vec![2], vec![i64::MIN, i64::MAX]);
    assert_eq!(t.to_text(), "shape [2]\n[-9223372036854775808, 9223372036854775807]\n\n\n");
}
