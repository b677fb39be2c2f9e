//! Laws that relate the tensor operations to one another.
use vstd::prelude::*;
use crate::shape::{
    agree_except, cat_position, cat_source, lemma_offset_split_axis, lemma_product_rank2,
    offset, product, valid_index,
};
use crate::tensor::Tensor;
use crate::traits::{TensorSub, TensorTrait};

verus! {

/// In a rank-2 tensor, the element at row `i`, column `j` is the element at
/// multi-index `[i, j]`.
pub proof fn lemma_at2_is_element<T: TensorTrait>(t: &Tensor<T>, i: i32, j: i32)
    requires
        t.spec_shape().len() == 2,
    ensures
        t.at2(i as int, j as int) == t.element(seq![i, j]),
{
    let s = t.spec_shape();
    let idx = seq![i, j];
    let s1 = s.drop_last();
    let i1 = idx.drop_last();
    assert(s1.drop_last() =~= Seq::<i32>::empty());
    assert(i1.drop_last() =~= Seq::<i32>::empty());
    assert(offset(s1.drop_last(), i1.drop_last()) == 0);
    assert(i1.last() == i);
    assert(offset(s1, i1) == 0 * s1.last() + i);
    assert(offset(s1, i1) == i);
    assert(offset(s, idx) == i * s[1] + j);
}

/// Adding `b` to `a` and then subtracting `b` again gives back `a`, element
/// for element and with the same shape, whenever the element type's
/// subtraction exactly undoes its addition.
pub proof fn lemma_add_sub_round_trip<T: TensorSub>(
    a: &Tensor<T>,
    b: &Tensor<T>,
    sum: &Tensor<T>,
    back: &Tensor<T>,
)
    requires
        a.wf(),
        b.wf(),
        a.spec_shape() == b.spec_shape(),
        a.combined(b, sum, |x: T, y: T| T::sum_of(x, y)),
        sum.combined(b, back, |x: T, y: T| T::difference_of(x, y)),
        forall|x: T, y: T| #[trigger] T::difference_of(T::sum_of(x, y), y) == x,
    ensures
        back.spec_shape() == a.spec_shape(),
        back.spec_data() == a.spec_data(),
{
    assert forall|i: int| 0 <= i < a.spec_data().len() implies back.spec_data()[i]
        == a.spec_data()[i] by {
        assert(sum.spec_data()[i] == T::sum_of(a.spec_data()[i], b.spec_data()[i]));
        assert(back.spec_data()[i] == T::difference_of(sum.spec_data()[i], b.spec_data()[i]));
    }
    assert(back.spec_data() =~= a.spec_data());
}

/// Wrapping subtraction undoes wrapping addition on `i64`, so the round trip
/// above holds for `i64` tensors.
pub proof fn lemma_i64_add_sub_cancel()
    ensures
        forall|x: i64, y: i64| #[trigger] i64::difference_of(i64::sum_of(x, y), y) == x,
{
}

/// Wrapping subtraction undoes wrapping addition on `i32`, so the round trip
/// above holds for `i32` tensors.
pub proof fn lemma_i32_add_sub_cancel()
    ensures
        forall|x: i32, y: i32| #[trigger] i32::difference_of(i32::sum_of(x, y), y) == x,
{
}

/// Transposing a rank-2 tensor twice gives back its shape and its elements.
pub proof fn lemma_transpose_involution<T: TensorTrait>(
    a: &Tensor<T>,
    b: &Tensor<T>,
    c: &Tensor<T>,
)
    requires
        a.wf(),
        a.spec_shape().len() == 2,
        a.is_transpose(b),
        b.is_transpose(c),
    ensures
        c.spec_shape() == a.spec_shape(),
        c.spec_data() == a.spec_data(),
{
    let rows = a.spec_shape()[0] as int;
    let cols = a.spec_shape()[1] as int;
    assert(c.spec_shape() =~= a.spec_shape());
    lemma_product_rank2(a.spec_shape());
    assert forall|p: int| 0 <= p < a.spec_data().len() implies c.spec_data()[p]
        == a.spec_data()[p] by {
        let i = p / cols;
        let j = p % cols;
        vstd::arithmetic::div_mod::lemma_fundamental_div_mod(p, cols);
        vstd::arithmetic::div_mod::lemma_mod_bound(p, cols);
        assert(0 <= i < rows) by (nonlinear_arith)
            requires
                cols >= 1,
                p == cols * i + j,
                0 <= j < cols,
                0 <= p < rows * cols,
        ;
        assert(c.at2(i, j) == b.at2(j, i));
        assert(b.at2(j, i) == a.at2(i, j));
        assert(i * cols + j == p) by (nonlinear_arith)
            requires
                p == cols * i + j,
        ;
    }
    assert(c.spec_data() =~= a.spec_data());
}

/// Each element of a concatenation along `dim` is the element of the tensor
/// that its coordinate on `dim` selects, at the same coordinates with `dim`
/// set to zero.
pub proof fn lemma_cat_element<T: TensorTrait>(
    ts: Seq<&Tensor<T>>,
    dim: int,
    r: &Tensor<T>,
    idx: Seq<i32>,
)
    requires
        0 < ts.len() <= i32::MAX,
        0 <= dim < ts[0].spec_shape().len(),
        forall|i: int| 0 <= i < ts.len() ==> (#[trigger] ts[i]).wf(),
        Tensor::all_agree_except(ts, dim),
        Tensor::all_unit_on(ts, dim),
        Tensor::is_cat(ts, dim, r),
        valid_index(r.spec_shape(), idx),
    ensures
        0 <= idx[dim] < ts.len(),
        r.element(idx) == ts[idx[dim] as int].element(idx.update(dim, 0)),
{
    let n = ts.len() as int;
    let s0 = ts[0].spec_shape();
    let rs = r.spec_shape();
    let inner = product(s0.skip(dim + 1));
    let c = idx[dim] as int;
    assert(rs[dim] == n);
    let t = ts[c];
    assert(t.spec_shape() =~= s0) by {
        assert(agree_except(t.spec_shape(), s0, dim));
        assert forall|x: int| 0 <= x < s0.len() implies t.spec_shape()[x] == s0[x] by {
            if x != dim {
                assert(agree_except(t.spec_shape(), s0, dim));
            }
        }
    }
    let idx0 = idx.update(dim, 0);
    assert(valid_index(s0, idx0)) by {
        assert forall|i: int| 0 <= i < s0.len() implies 0 <= #[trigger] idx0[i] < s0[i] by {
            if i != dim {
                assert(idx0[i] == idx[i]);
                assert(rs[i] == s0[i]);
            }
        }
    }
    lemma_offset_split_axis(rs, idx, dim);
    lemma_offset_split_axis(s0, idx0, dim);
    assert(rs.take(dim) =~= s0.take(dim));
    assert(rs.skip(dim + 1) =~= s0.skip(dim + 1));
    assert(idx0.take(dim) =~= idx.take(dim));
    assert(idx0.skip(dim + 1) =~= idx.skip(dim + 1));
    let a = offset(s0.take(dim), idx.take(dim));
    let b = offset(s0.skip(dim + 1), idx.skip(dim + 1));
    let k = offset(rs, idx);
    assert(k == (a * n + c) * inner + b);
    assert(offset(s0, idx0) == (a * 1 + 0) * inner + b);
    assert(k == a * (n * inner) + (c * inner + b)) by (nonlinear_arith)
        requires
            k == (a * n + c) * inner + b,
    ;
    assert(0 <= c * inner + b < n * inner) by (nonlinear_arith)
        requires
            0 <= c < n,
            0 <= b < inner,
    ;
    vstd::arithmetic::div_mod::lemma_fundamental_div_mod_converse(k, n * inner, a, c * inner + b);
    vstd::arithmetic::div_mod::lemma_fundamental_div_mod_converse(c * inner + b, inner, c, b);
    assert(k == (a * n + c) * inner + b);
    vstd::arithmetic::div_mod::lemma_fundamental_div_mod_converse(k, inner, a * n + c, b);
    assert(cat_source(k, n, inner) == c);
    assert(cat_position(k, n, inner) == a * inner + b);
    assert(0 <= k < r.spec_data().len()) by {
        crate::shape::lemma_offset_bound(rs, idx);
    }
}

} // verus!
