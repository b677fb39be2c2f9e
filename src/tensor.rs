//! The tensor type: a shape and a flat, row-major buffer of elements whose
//! length is always the product of the shape.
//!
//! Every operation returns a new tensor or a `TensorError`; none panics.
//! Elementwise operations require equal shapes, not merely equal ranks, so
//! that positions in the two buffers always correspond. `cat` stacks tensors
//! that each have size one on the chosen axis (as `unsqueeze` makes them),
//! and refuses others rather than dropping their data.
use vstd::prelude::*;
use crate::shape::{
    count_inferred, known_positive, known_product, lemma_known_product_positive,
    lemma_known_product_prefix, lemma_offset_bound, lemma_offset_take_step,
    lemma_product_insert_one, lemma_product_positive, lemma_product_split,
    lemma_product_take_step, lemma_resolve_positive, lemma_resolve_product,
    lemma_target_take_step, offset, positive_shape, product, resolve, valid_index,
    agree_except, cat_position, cat_source, lemma_cat_bounds, lemma_product_skip_step,
    lemma_product_rank2, lemma_product_update, stride,
};
use crate::render::{joined, rows, tensor_text};
use crate::traits::{TensorDiv, TensorSub, TensorTrait};
use vstd::string::StringExecFns;

verus! {

/// Why a tensor operation was refused.
#[derive(Clone, Copy, Debug, PartialEq, Eq, Structural)]
pub enum TensorError {
    /// The element count disagrees with the shape, or two shapes disagree on
    /// an axis where they must agree.
    ShapeMismatch,
    /// The operands have different ranks.
    RankMismatch,
    /// A reshape target infers more than one axis, or cannot be met.
    InvalidReshape,
    /// A multi-index, or an axis, lies outside the shape.
    IndexOutOfBounds,
    /// The operation is not defined for these ranks or arguments.
    Unimplemented,
}

/// A dense tensor: `shape` lists the size of each axis, outermost first, and
/// `components` holds the elements in row-major order.
pub struct Tensor<T: TensorTrait> {
    shape: Vec<i32>,
    components: Vec<T>,
}

/// A copy of `v`, element by element.
fn copy_vec<U: Copy>(v: &Vec<U>) -> (r: Vec<U>)
    ensures
        r@ == v@,
{
    let mut r: Vec<U> = Vec::with_capacity(v.len());
    for i in 0..v.len()
        invariant
            r@ == v@.take(i as int),
    {
        r.push(v[i]);
        assert(r@ =~= v@.take(i + 1));
    }
    assert(v@.take(v@.len() as int) =~= v@);
    r
}

/// The texts of `data[start..end]`, separated by `, `.
fn joined_text<U: TensorTrait>(data: &Vec<U>, start: usize, end: usize) -> (r: String)
    requires
        start <= end <= data@.len(),
    ensures
        r@ == joined(data@.subrange(start as int, end as int)),
{
    proof {
        reveal_strlit(", ");
    }
    let mut r = String::new();
    for k in start..end
        invariant
            start <= end <= data@.len(),
            r@ == joined(data@.subrange(start as int, k as int)),
    {
        let ghost before = r@;
        proof {
            reveal_strlit(", ");
        }
        if k > start {
            r = r.concat(", ");
        }
        let piece = data[k].text();
        r = r.concat(piece.as_str());
        assert(data@.subrange(start as int, k + 1).drop_last() =~= data@.subrange(
            start as int,
            k as int,
        ));
        let ghost next = data@.subrange(start as int, k + 1);
        assert(next.last() == data@[k as int]);
        if k == start {
            assert(before =~= Seq::<char>::empty());
            assert(next.len() == 1);
            assert(r@ =~= U::text_of(data@[k as int]));
        } else {
            assert(next.len() >= 2);
            assert(r@ =~= before + seq![',', ' '] + U::text_of(data@[k as int]));
        }
        assert(r@ =~= joined(next));
    }
    r
}

impl<T: TensorTrait> Tensor<T> {
    /// The shape, outermost axis first.
    pub closed spec fn spec_shape(&self) -> Seq<i32> {
        self.shape@
    }

    /// The elements in row-major order.
    pub closed spec fn spec_data(&self) -> Seq<T> {
        self.components@
    }

    /// Well-formedness, which every tensor has: all axis sizes are positive
    /// and the buffer holds exactly as many elements as the shape counts.
    pub open spec fn wf(&self) -> bool {
        &&& positive_shape(self.spec_shape())
        &&& product(self.spec_shape()) == self.spec_data().len()
    }

    /// The element at multi-index `idx`.
    pub open spec fn element(&self, idx: Seq<i32>) -> T {
        self.spec_data()[offset(self.spec_shape(), idx)]
    }

    /// Makes a tensor of the given shape over `components`, which lists the
    /// elements in row-major order. Fails with `ShapeMismatch` unless every
    /// axis size is positive and their product is the number of components.
    pub fn build(shape: Vec<i32>, components: Vec<T>) -> (r: Result<Tensor<T>, TensorError>)
        ensures
            r is Ok <==> positive_shape(shape@) && product(shape@) == components@.len(),
            r is Err ==> r == Err::<Tensor<T>, TensorError>(TensorError::ShapeMismatch),
            r matches Ok(t) ==> t.wf() && t.spec_shape() == shape@ && t.spec_data()
                == components@,
    {
        let len = components.len();
        if len == 0 {
            proof {
                if positive_shape(shape@) {
                    lemma_product_positive(shape@);
                }
            }
            return Err(TensorError::ShapeMismatch);
        }
        let mut count: usize = 1;
        for i in 0..shape.len()
            invariant
                positive_shape(shape@.take(i as int)),
                count == product(shape@.take(i as int)),
                count <= len,
                len == components@.len(),
        {
            proof {
                lemma_product_take_step(shape@, i as int);
            }
            if shape[i] <= 0 {
                return Err(TensorError::ShapeMismatch);
            }
            assert(positive_shape(shape@.take(i + 1))) by {
                assert forall|j: int| 0 <= j < i + 1 implies #[trigger] shape@.take(i + 1)[j] > 0 by {
                    if j < i {
                        assert(shape@.take(i + 1)[j] == shape@.take(i as int)[j]);
                    }
                }
            }
            let size = shape[i] as usize;
            assert(size == shape@[i as int]);
            assert(product(shape@.take(i + 1)) == count * size);
            match count.checked_mul(size) {
                Some(next) => {
                    assert(next == product(shape@.take(i + 1)));
                    if next > len {
                        proof {
                            Self::lemma_prefix_exceeds(shape@, i + 1, len as int);
                        }
                        return Err(TensorError::ShapeMismatch);
                    }
                    count = next;
                },
                None => {
                    proof {
                        Self::lemma_prefix_exceeds(shape@, i + 1, len as int);
                    }
                    return Err(TensorError::ShapeMismatch);
                },
            }
        }
        assert(shape@.take(shape@.len() as int) =~= shape@);
        if count != len {
            return Err(TensorError::ShapeMismatch);
        }
        Ok(Tensor { shape, components })
    }

    /// When the first `k` axis sizes are positive and already count more than
    /// `len` elements, the whole shape does not count `len`.
    proof fn lemma_prefix_exceeds(s: Seq<i32>, k: int, len: int)
        requires
            0 <= k <= s.len(),
            positive_shape(s.take(k)),
            product(s.take(k)) > len,
        ensures
            !(positive_shape(s) && product(s) == len),
    {
        if positive_shape(s) {
            lemma_product_split(s, k);
        }
    }

    /// The rank: the number of axes.
    pub fn dim(&self) -> (r: usize)
        ensures
            r == self.spec_shape().len(),
    {
        self.shape.len()
    }

    /// A copy of the shape.
    pub fn shape(&self) -> (r: Vec<i32>)
        ensures
            r@ == self.spec_shape(),
    {
        copy_vec(&self.shape)
    }

    /// A copy of the elements, in row-major order.
    pub fn components(&self) -> (r: Vec<T>)
        ensures
            r@ == self.spec_data(),
    {
        copy_vec(&self.components)
    }

    /// The element at multi-index `index`, whose flat offset is the sum over
    /// the axes of coordinate times stride (`lemma_offset_is_stride_sum`). Fails with `IndexOutOfBounds`
    /// unless there is one coordinate per axis, each within its axis.
    pub fn get(&self, index: Vec<i32>) -> (r: Result<T, TensorError>)
        requires
            self.wf(),
        ensures
            valid_index(self.spec_shape(), index@) ==> r == Ok::<T, TensorError>(
                self.element(index@),
            ),
            !valid_index(self.spec_shape(), index@) ==> r == Err::<T, TensorError>(
                TensorError::IndexOutOfBounds,
            ),
    {
        let rank = self.shape.len();
        if index.len() != rank {
            return Err(TensorError::IndexOutOfBounds);
        }
        for x in 0..rank
            invariant
                rank == self.shape@.len(),
                index@.len() == rank,
                forall|y: int| 0 <= y < x ==> 0 <= #[trigger] index@[y] < self.shape@[y],
        {
            if index[x] < 0 || index[x] >= self.shape[x] {
                return Err(TensorError::IndexOutOfBounds);
            }
        }
        let ghost s = self.shape@;
        let ghost idx = index@;
        let total = self.components.len();
        let mut flat: usize = 0;
        for x in 0..rank
            invariant
                total == self.components@.len(),
                s == self.shape@,
                idx == index@,
                rank == s.len(),
                valid_index(s, idx),
                self.wf(),
                flat == offset(s.take(x as int), idx.take(x as int)),
        {
            let size = self.shape[x] as usize;
            let coord = index[x] as usize;
            proof {
                lemma_offset_take_step(s, idx, x as int);
                assert(valid_index(s.take(x + 1), idx.take(x + 1)));
                lemma_offset_bound(s.take(x + 1), idx.take(x + 1));
                lemma_product_split(s, x + 1);
                assert(size == s[x as int] && coord == idx[x as int]);
                assert(flat * size + coord < self.components@.len());
            }
            flat = flat * size + coord;
        }
        assert(s.take(rank as int) =~= s);
        assert(idx.take(rank as int) =~= idx);
        proof {
            lemma_offset_bound(s, idx);
        }
        Ok(self.components[flat])
    }

    /// The element at row `i`, column `j` of a rank-2 tensor.
    pub open spec fn at2(&self, i: int, j: int) -> T {
        self.spec_data()[i * self.spec_shape()[1] + j]
    }

    /// Row `k` of `self` times column `i` of `other` over the first `n` terms,
    /// accumulated from zero in order.
    pub open spec fn dot(&self, other: &Tensor<T>, k: int, i: int, n: int) -> T
        decreases n,
    {
        if n <= 0 {
            T::zero_value()
        } else {
            T::sum_of(
                self.dot(other, k, i, n - 1),
                T::product_of(self.at2(k, n - 1), other.at2(n - 1, i)),
            )
        }
    }

    /// `r` is the matrix product of the rank-2 tensors `self` and `other`.
    pub open spec fn is_matmul(&self, other: &Tensor<T>, r: &Tensor<T>) -> bool {
        &&& r.wf()
        &&& r.spec_shape() == seq![self.spec_shape()[0], other.spec_shape()[1]]
        &&& forall|k: int, i: int|
            0 <= k < self.spec_shape()[0] && 0 <= i < other.spec_shape()[1] ==> #[trigger] r.at2(
                k,
                i,
            ) == self.dot(other, k, i, self.spec_shape()[1] as int)
    }

    /// `r` is the transpose of the rank-2 tensor `self`.
    pub open spec fn is_transpose(&self, r: &Tensor<T>) -> bool {
        &&& r.wf()
        &&& r.spec_shape() == seq![self.spec_shape()[1], self.spec_shape()[0]]
        &&& forall|i: int, j: int|
            0 <= i < self.spec_shape()[1] && 0 <= j < self.spec_shape()[0] ==> #[trigger] r.at2(
                i,
                j,
            ) == self.at2(j, i)
    }

    /// Matrix product. Fails with `RankMismatch` when the ranks differ, with
    /// `Unimplemented` unless both ranks are 2, and with `ShapeMismatch` when
    /// the column count of `self` is not the row count of `other`.
    pub fn matmul(&self, other: &Tensor<T>) -> (r: Result<Tensor<T>, TensorError>)
        requires
            self.wf(),
            other.wf(),
            self.spec_shape().len() == 2 && other.spec_shape().len() == 2 ==> self.spec_shape()[0]
                * other.spec_shape()[1] <= usize::MAX,
        ensures
            self.spec_shape().len() != other.spec_shape().len() ==> r == Err::<
                Tensor<T>,
                TensorError,
            >(TensorError::RankMismatch),
            self.spec_shape().len() == other.spec_shape().len() && self.spec_shape().len() != 2
                ==> r == Err::<Tensor<T>, TensorError>(TensorError::Unimplemented),
            self.spec_shape().len() == 2 && other.spec_shape().len() == 2 && self.spec_shape()[1]
                != other.spec_shape()[0] ==> r == Err::<Tensor<T>, TensorError>(
                TensorError::ShapeMismatch,
            ),
            self.spec_shape().len() == 2 && other.spec_shape().len() == 2 && self.spec_shape()[1]
                == other.spec_shape()[0] ==> (r matches Ok(t) && self.is_matmul(other, &t)),
    {
        if self.shape.len() != other.shape.len() {
            return Err(TensorError::RankMismatch);
        }
        if self.shape.len() != 2 {
            return Err(TensorError::Unimplemented);
        }
        if self.shape[1] != other.shape[0] {
            return Err(TensorError::ShapeMismatch);
        }
        Ok(self.matmul2d(other))
    }

    /// The product of two rank-2 tensors whose inner sizes agree.
    fn matmul2d(&self, other: &Tensor<T>) -> (r: Tensor<T>)
        requires
            self.wf(),
            other.wf(),
            self.spec_shape().len() == 2,
            other.spec_shape().len() == 2,
            self.spec_shape()[1] == other.spec_shape()[0],
            self.spec_shape()[0] * other.spec_shape()[1] <= usize::MAX,
        ensures
            self.is_matmul(other, &r),
    {
        let rows = self.shape[0] as usize;
        let inner = self.shape[1] as usize;
        let cols = other.shape[1] as usize;
        proof {
            lemma_product_rank2(self.shape@);
            lemma_product_rank2(other.shape@);
        }
        let a_len = self.components.len();
        let b_len = other.components.len();
        let mut vec: Vec<T> = Vec::with_capacity(rows * cols);
        assert(vec@.len() == 0 * cols);
        for k in 0..rows
            invariant
                a_len == self.components@.len(),
                b_len == other.components@.len(),
                self.wf(),
                other.wf(),
                rows == self.shape@[0],
                inner == self.shape@[1],
                inner == other.shape@[0],
                cols == other.shape@[1],
                self.shape@.len() == 2,
                other.shape@.len() == 2,
                self.components@.len() == rows * inner,
                other.components@.len() == inner * cols,
                rows * cols <= usize::MAX,
                vec@.len() == k * cols,
                forall|p: int|
                    0 <= p < vec@.len() ==> #[trigger] vec@[p] == self.dot(
                        other,
                        p / cols as int,
                        p % cols as int,
                        inner as int,
                    ),
        {
            for i in 0..cols
                invariant
                    a_len == self.components@.len(),
                    b_len == other.components@.len(),
                    self.wf(),
                    other.wf(),
                    k < rows,
                    rows == self.shape@[0],
                    inner == self.shape@[1],
                    inner == other.shape@[0],
                    cols == other.shape@[1],
                    self.shape@.len() == 2,
                    other.shape@.len() == 2,
                    self.components@.len() == rows * inner,
                    other.components@.len() == inner * cols,
                    rows * cols <= usize::MAX,
                    vec@.len() == k * cols + i,
                    forall|p: int|
                        0 <= p < vec@.len() ==> #[trigger] vec@[p] == self.dot(
                            other,
                            p / cols as int,
                            p % cols as int,
                            inner as int,
                        ),
            {
                let mut acc: T = T::zero();
                for j in 0..inner
                    invariant
                        a_len == self.components@.len(),
                        b_len == other.components@.len(),
                        self.wf(),
                        other.wf(),
                        k < rows,
                        i < cols,
                        rows == self.shape@[0],
                        inner == self.shape@[1],
                        inner == other.shape@[0],
                        cols == other.shape@[1],
                        self.shape@.len() == 2,
                        other.shape@.len() == 2,
                        self.components@.len() == rows * inner,
                        other.components@.len() == inner * cols,
                        acc == self.dot(other, k as int, i as int, j as int),
                {
                    assert(k * inner + j < rows * inner) by (nonlinear_arith)
                        requires
                            k < rows,
                            j < inner,
                    ;
                    assert(j * cols + i < inner * cols) by (nonlinear_arith)
                        requires
                            j < inner,
                            i < cols,
                    ;
                    let a = self.components[k * inner + j];
                    let b = other.components[j * cols + i];
                    acc = acc.add(a.mul(b));
                }
                proof {
                    assert(k * cols + i < rows * cols) by (nonlinear_arith)
                        requires
                            k < rows,
                            i < cols,
                    ;
                    vstd::arithmetic::div_mod::lemma_fundamental_div_mod_converse(
                        (k * cols + i) as int,
                        cols as int,
                        k as int,
                        i as int,
                    );
                }
                vec.push(acc);
            }
            assert(k * cols + cols == (k + 1) * cols) by (nonlinear_arith);
        }
        let ghost out = vec@;
        proof {
            assert forall|k: int, i: int| 0 <= k < rows && 0 <= i < cols implies out[k * cols + i]
                == self.dot(other, k, i, inner as int) by {
                assert(k * cols + i < rows * cols) by (nonlinear_arith)
                    requires
                        k < rows,
                        i < cols,
                ;
                vstd::arithmetic::div_mod::lemma_fundamental_div_mod_converse(
                    k * cols + i,
                    cols as int,
                    k,
                    i,
                );
            }
        }
        let shape = vec![self.shape[0], other.shape[1]];
        proof {
            lemma_product_rank2(shape@);
        }
        Tensor { shape, components: vec }
    }

    /// Transpose of a rank-2 tensor. Fails with `Unimplemented` on any other rank.
    pub fn transpose(&self) -> (r: Result<Tensor<T>, TensorError>)
        requires
            self.wf(),
        ensures
            self.spec_shape().len() != 2 ==> r == Err::<Tensor<T>, TensorError>(
                TensorError::Unimplemented,
            ),
            self.spec_shape().len() == 2 ==> (r matches Ok(t) && self.is_transpose(&t)),
    {
        if self.shape.len() != 2 {
            return Err(TensorError::Unimplemented);
        }
        let rows = self.shape[0] as usize;
        let cols = self.shape[1] as usize;
        proof {
            lemma_product_rank2(self.shape@);
        }
        let len = self.components.len();
        let mut vec: Vec<T> = Vec::with_capacity(len);
        assert(vec@.len() == 0 * rows);
        for i in 0..cols
            invariant
                len == self.components@.len(),
                self.wf(),
                rows == self.shape@[0],
                cols == self.shape@[1],
                self.shape@.len() == 2,
                self.components@.len() == rows * cols,
                vec@.len() == i * rows,
                forall|p: int|
                    0 <= p < vec@.len() ==> #[trigger] vec@[p] == self.at2(
                        p % rows as int,
                        p / rows as int,
                    ),
        {
            for j in 0..rows
                invariant
                    len == self.components@.len(),
                    self.wf(),
                    i < cols,
                    rows == self.shape@[0],
                    cols == self.shape@[1],
                    self.shape@.len() == 2,
                    self.components@.len() == rows * cols,
                    vec@.len() == i * rows + j,
                    forall|p: int|
                        0 <= p < vec@.len() ==> #[trigger] vec@[p] == self.at2(
                            p % rows as int,
                            p / rows as int,
                        ),
            {
                assert(j * cols + i < rows * cols) by (nonlinear_arith)
                    requires
                        j < rows,
                        i < cols,
                ;
                proof {
                    vstd::arithmetic::div_mod::lemma_fundamental_div_mod_converse(
                        (i * rows + j) as int,
                        rows as int,
                        i as int,
                        j as int,
                    );
                }
                vec.push(self.components[j * cols + i]);
            }
            assert(i * rows + rows == (i + 1) * rows) by (nonlinear_arith);
        }
        let ghost out = vec@;
        proof {
            assert forall|i: int, j: int| 0 <= i < cols && 0 <= j < rows implies out[i * rows + j]
                == self.at2(j, i) by {
                assert(i * rows + j < cols * rows) by (nonlinear_arith)
                    requires
                        i < cols,
                        j < rows,
                ;
                vstd::arithmetic::div_mod::lemma_fundamental_div_mod_converse(
                    i * rows + j,
                    rows as int,
                    i,
                    j,
                );
            }
            assert(cols * rows == rows * cols) by (nonlinear_arith);
        }
        let shape = vec![self.shape[1], self.shape[0]];
        proof {
            lemma_product_rank2(shape@);
        }
        Ok(Tensor { shape, components: vec })
    }

    /// The same elements, in the same order, under the shape `shape`, in which
    /// one entry may be `-1` to infer that axis from the element count.
    /// Fails with `InvalidReshape` when more than one axis is inferred, or when
    /// one is and the other entries are not positive, their product does not
    /// divide the element count, or the inferred size exceeds `i32::MAX`.
    /// Without an inferred axis, fails as `build` does.
    pub fn reshape(&self, shape: Vec<i32>) -> (r: Result<Tensor<T>, TensorError>)
        requires
            self.wf(),
        ensures
            count_inferred(shape@) > 1 ==> r == Err::<Tensor<T>, TensorError>(
                TensorError::InvalidReshape,
            ),
            count_inferred(shape@) == 1 ==> ({
                let total = self.spec_data().len() as int;
                let known = known_product(shape@);
                if known_positive(shape@) && total % known == 0 && total / known <= i32::MAX {
                    r matches Ok(t) && t.wf() && t.spec_shape() == resolve(
                        shape@,
                        (total / known) as i32,
                    ) && t.spec_data() == self.spec_data()
                } else {
                    r == Err::<Tensor<T>, TensorError>(TensorError::InvalidReshape)
                }
            }),
            count_inferred(shape@) == 0 ==> if positive_shape(shape@) && product(shape@)
                == self.spec_data().len() {
                r matches Ok(t) && t.wf() && t.spec_shape() == shape@ && t.spec_data()
                    == self.spec_data()
            } else {
                r == Err::<Tensor<T>, TensorError>(TensorError::ShapeMismatch)
            },
    {
        let n = shape.len();
        let mut inferred: usize = 0;
        for i in 0..n
            invariant
                n == shape@.len(),
                inferred == count_inferred(shape@.take(i as int)),
                inferred <= i,
        {
            proof {
                lemma_target_take_step(shape@, i as int);
            }
            if shape[i] == -1 {
                inferred = inferred + 1;
            }
        }
        assert(shape@.take(n as int) =~= shape@);
        if inferred > 1 {
            return Err(TensorError::InvalidReshape);
        }
        if inferred == 0 {
            return Tensor::build(shape, copy_vec(&self.components));
        }
        let total = self.components.len();
        proof {
            lemma_product_positive(self.shape@);
        }
        let mut known: usize = 1;
        for i in 0..n
            invariant
                n == shape@.len(),
                total == self.components@.len(),
                total >= 1,
                count_inferred(shape@) == 1,
                known == known_product(shape@.take(i as int)),
                1 <= known <= total,
                known_positive(shape@.take(i as int)),
        {
            proof {
                lemma_target_take_step(shape@, i as int);
            }
            let size = shape[i];
            if size != -1 {
                if size <= 0 {
                    return Err(TensorError::InvalidReshape);
                }
                let next = known.checked_mul(size as usize);
                if next.is_none() || next.unwrap() > total {
                    proof {
                        if known_positive(shape@) {
                            lemma_known_product_prefix(shape@, i + 1);
                            let k = known_product(shape@);
                            vstd::arithmetic::div_mod::lemma_fundamental_div_mod_converse(
                                total as int,
                                k,
                                0,
                                total as int,
                            );
                        }
                    }
                    return Err(TensorError::InvalidReshape);
                }
                assert(known * size >= 1) by (nonlinear_arith)
                    requires
                        known >= 1,
                        size >= 1,
                ;
                known = next.unwrap();
            }
            assert(known_positive(shape@.take(i + 1))) by {
                assert forall|j: int| 0 <= j < i + 1 && #[trigger] shape@.take(i + 1)[j] != -1 implies shape@.take(
                    i + 1,
                )[j] > 0 by {
                    if j < i {
                        assert(shape@.take(i + 1)[j] == shape@.take(i as int)[j]);
                    }
                }
            }
        }
        assert(shape@.take(n as int) =~= shape@);
        if total % known != 0 {
            return Err(TensorError::InvalidReshape);
        }
        let inferred_size = total / known;
        if inferred_size > i32::MAX as usize {
            return Err(TensorError::InvalidReshape);
        }
        let size = inferred_size as i32;
        let mut resolved: Vec<i32> = Vec::with_capacity(n);
        for i in 0..n
            invariant
                n == shape@.len(),
                count_inferred(shape@) == 1,
                resolved@ == resolve(shape@, size).take(i as int),
        {
            if shape[i] == -1 {
                resolved.push(size);
            } else {
                resolved.push(shape[i]);
            }
            assert(resolved@ =~= resolve(shape@, size).take(i + 1));
        }
        assert(resolve(shape@, size).take(n as int) =~= resolve(shape@, size));
        proof {
            lemma_resolve_product(shape@, size);
            vstd::arithmetic::div_mod::lemma_fundamental_div_mod(total as int, known as int);
            assert(size > 0) by (nonlinear_arith)
                requires
                    total >= 1,
                    known >= 1,
                    total == known * size + 0,
            ;
            lemma_resolve_positive(shape@, size);
        }
        Tensor::build(resolved, copy_vec(&self.components))
    }

    /// The same elements under the shape with an axis of size one inserted at
    /// position `dim`, which may equal the rank to append it. Fails with
    /// `IndexOutOfBounds` when `dim` exceeds the rank.
    pub fn unsqueeze(input: Tensor<T>, dim: usize) -> (r: Result<Tensor<T>, TensorError>)
        requires
            input.wf(),
        ensures
            dim > input.spec_shape().len() ==> r == Err::<Tensor<T>, TensorError>(
                TensorError::IndexOutOfBounds,
            ),
            dim <= input.spec_shape().len() ==> (r matches Ok(t) && t.wf() && t.spec_shape()
                == input.spec_shape().insert(dim as int, 1) && t.spec_data()
                == input.spec_data()),
    {
        if dim > input.shape.len() {
            return Err(TensorError::IndexOutOfBounds);
        }
        let mut shape = input.shape;
        let ghost old_shape = shape@;
        shape.insert(dim, 1);
        proof {
            lemma_product_insert_one(old_shape, dim as int);
            assert(positive_shape(shape@)) by {
                assert forall|i: int| 0 <= i < shape@.len() implies #[trigger] shape@[i] > 0 by {
                    if i < dim {
                        assert(shape@[i] == old_shape[i]);
                    } else if i > dim {
                        assert(shape@[i] == old_shape[i - 1]);
                    }
                }
            }
        }
        Ok(Tensor { shape, components: input.components })
    }

    /// The stride table of `shape`: entry `x` is the product of the sizes of
    /// the axes after `x`, so the last entry is 1.
    pub fn get_shape_pi(shape: &Vec<i32>) -> (r: Vec<usize>)
        requires
            positive_shape(shape@),
            product(shape@) <= usize::MAX,
        ensures
            r@.len() == shape@.len(),
            forall|x: int| 0 <= x < shape@.len() ==> #[trigger] r@[x] == stride(shape@, x),
    {
        let n = shape.len();
        let mut shape_pi: Vec<usize> = Vec::new();
        if n == 0 {
            return shape_pi;
        }
        shape_pi.push(1);
        assert(shape@.skip(n as int) =~= Seq::<i32>::empty());
        let mut idx: usize = n - 1;
        while idx > 0
            invariant
                n == shape@.len(),
                positive_shape(shape@),
                product(shape@) <= usize::MAX,
                idx < n,
                shape_pi@.len() == n - idx,
                forall|j: int|
                    0 <= j < shape_pi@.len() ==> #[trigger] shape_pi@[j] == stride(
                        shape@,
                        idx + j,
                    ),
            decreases idx,
        {
            proof {
                lemma_product_skip_step(shape@, idx as int);
                lemma_product_split(shape@, idx as int);
            }
            let pi = shape[idx] as usize * shape_pi[0];
            let ghost before = shape_pi@;
            shape_pi.insert(0, pi);
            idx = idx - 1;
            assert forall|j: int| 0 <= j < shape_pi@.len() implies #[trigger] shape_pi@[j]
                == stride(shape@, idx + j) by {
                if j > 0 {
                    assert(shape_pi@[j] == before[j - 1]);
                }
            }
        }
        shape_pi
    }

    /// Stacks `tensors` along axis `dim`, where each has size one: the result
    /// has the shape of the first with `dim` set to the number of tensors, and
    /// its coordinate on `dim` selects the tensor an element comes from.
    /// Fails with `Unimplemented` when there is no tensor or `dim` is not an
    /// axis of the first, with `ShapeMismatch` when the shapes differ on an
    /// axis other than `dim`, and then with `Unimplemented` when a tensor
    /// does not have size one on `dim`.
    pub fn cat(tensors: Vec<&Tensor<T>>, dim: usize) -> (r: Result<Tensor<T>, TensorError>)
        requires
            forall|i: int| 0 <= i < tensors@.len() ==> (#[trigger] tensors@[i]).wf(),
            tensors@.len() <= i32::MAX,
            tensors@.len() > 0 ==> tensors@.len() * tensors@[0].spec_data().len() <= usize::MAX,
        ensures
            tensors@.len() == 0 || dim >= tensors@[0].spec_shape().len() ==> r == Err::<
                Tensor<T>,
                TensorError,
            >(TensorError::Unimplemented),
            tensors@.len() > 0 && dim < tensors@[0].spec_shape().len() ==> {
                if !Self::all_agree_except(tensors@, dim as int) {
                    r == Err::<Tensor<T>, TensorError>(TensorError::ShapeMismatch)
                } else if !Self::all_unit_on(tensors@, dim as int) {
                    r == Err::<Tensor<T>, TensorError>(TensorError::Unimplemented)
                } else {
                    r matches Ok(t) && Self::is_cat(tensors@, dim as int, &t)
                }
            },
    {
        let n = tensors.len();
        if n == 0 {
            return Err(TensorError::Unimplemented);
        }
        let first = tensors[0];
        let rank = first.shape.len();
        if dim >= rank {
            return Err(TensorError::Unimplemented);
        }
        for i in 0..n
            invariant
                n == tensors@.len(),
                n > 0,
                first == tensors@[0],
                rank == first.shape@.len(),
                dim < rank,
                forall|j: int|
                    0 <= j < i ==> agree_except(
                        (#[trigger] tensors@[j]).spec_shape(),
                        first.spec_shape(),
                        dim as int,
                    ),
        {
            let t = tensors[i];
            if t.shape.len() != rank {
                assert(!agree_except(t.spec_shape(), first.spec_shape(), dim as int));
                return Err(TensorError::ShapeMismatch);
            }
            for x in 0..rank
                invariant
                    n == tensors@.len(),
                    n > 0,
                    i < n,
                    first == tensors@[0],
                    t == tensors@[i as int],
                    dim < rank,
                    rank == first.shape@.len(),
                    rank == t.shape@.len(),
                    forall|y: int|
                        0 <= y < x && y != dim ==> #[trigger] t.shape@[y] == first.shape@[y],
            {
                if x != dim && t.shape[x] != first.shape[x] {
                    assert(!agree_except(t.spec_shape(), first.spec_shape(), dim as int));
                    return Err(TensorError::ShapeMismatch);
                }
            }
        }
        for i in 0..n
            invariant
                n == tensors@.len(),
                n > 0,
                rank == tensors@[0].spec_shape().len(),
                dim < rank,
                forall|j: int|
                    0 <= j < n ==> agree_except(
                        (#[trigger] tensors@[j]).spec_shape(),
                        tensors@[0].spec_shape(),
                        dim as int,
                    ),
                forall|j: int| 0 <= j < i ==> (#[trigger] tensors@[j]).spec_shape()[dim as int] == 1,
        {
            assert(agree_except(tensors@[i as int].spec_shape(), tensors@[0].spec_shape(), dim as int));
            if tensors[i].shape[dim] != 1 {
                return Err(TensorError::Unimplemented);
            }
        }
        let ghost s0 = first.shape@;
        let len0 = first.components.len();
        proof {
            lemma_product_split(s0, dim + 1);
            lemma_product_update(s0, dim as int, 1);
            assert(s0.update(dim as int, 1) =~= s0);
            lemma_product_positive(s0.take(dim as int));
            lemma_product_positive(s0.skip(dim + 1));
        }
        let shape_pi = Self::get_shape_pi(&first.shape);
        let inner = shape_pi[dim];
        let ghost outer = product(s0.take(dim as int));
        assert(len0 == outer * inner);
        assert(n * inner <= n * len0) by (nonlinear_arith)
            requires
                n >= 1,
                outer >= 1,
                len0 == outer * inner,
        ;
        let block = n * inner;
        let total = n * len0;
        assert(total == outer * block) by (nonlinear_arith)
            requires
                total == n * len0,
                len0 == outer * inner,
                block == n * inner,
        ;
        let mut components: Vec<T> = Vec::with_capacity(total);
        for k in 0..total
            invariant
                n == tensors@.len(),
                forall|i: int| 0 <= i < tensors@.len() ==> (#[trigger] tensors@[i]).wf(),
                forall|j: int|
                    0 <= j < n ==> agree_except(
                        (#[trigger] tensors@[j]).spec_shape(),
                        s0,
                        dim as int,
                    ),
                forall|j: int| 0 <= j < n ==> (#[trigger] tensors@[j]).spec_shape()[dim as int] == 1,
                s0 == tensors@[0].spec_shape(),
                dim < s0.len(),
                len0 == tensors@[0].spec_data().len(),
                n >= 1,
                inner >= 1,
                outer >= 1,
                block == n * inner,
                total == outer * block,
                len0 == outer * inner,
                components@.len() == k,
                forall|p: int|
                    0 <= p < k ==> #[trigger] components@[p] == tensors@[cat_source(
                        p,
                        n as int,
                        inner as int,
                    )].spec_data()[cat_position(p, n as int, inner as int)],
        {
            proof {
                lemma_cat_bounds(k as int, n as int, inner as int, outer);
            }
            let source = (k % block) / inner;
            let position = (k / block) * inner + k % inner;
            proof {
                let t = tensors@[source as int];
                assert(t.spec_shape() =~= s0) by {
                    assert forall|x: int| 0 <= x < s0.len() implies t.spec_shape()[x] == s0[x] by {
                        if x != dim {
                            assert(agree_except(t.spec_shape(), s0, dim as int));
                        }
                    }
                }
            }
            components.push(tensors[source].components[position]);
        }
        let mut shape = copy_vec(&first.shape);
        shape.set(dim, n as i32);
        proof {
            lemma_product_update(s0, dim as int, n as i32);
            let count = n as i32 as int;
            assert(count == n);
            assert(outer * count * inner == outer * block) by (nonlinear_arith)
                requires
                    block == count * inner,
            ;
            assert(positive_shape(shape@)) by {
                assert forall|x: int| 0 <= x < shape@.len() implies #[trigger] shape@[x] > 0 by {
                    if x != dim {
                        assert(shape@[x] == s0[x]);
                    }
                }
            }
        }
        Ok(Tensor { shape, components })
    }

    /// Every tensor of `ts` agrees with the first on every axis but `dim`.
    pub open spec fn all_agree_except(ts: Seq<&Tensor<T>>, dim: int) -> bool {
        forall|i: int|
            0 <= i < ts.len() ==> agree_except(
                (#[trigger] ts[i]).spec_shape(),
                ts[0].spec_shape(),
                dim,
            )
    }

    /// Every tensor of `ts` has size one on axis `dim`.
    pub open spec fn all_unit_on(ts: Seq<&Tensor<T>>, dim: int) -> bool {
        forall|i: int| 0 <= i < ts.len() ==> (#[trigger] ts[i]).spec_shape()[dim] == 1
    }

    /// `r` stacks the tensors of `ts` along axis `dim`: it has the shape of the
    /// first with `dim` set to their number, and each of its elements is the
    /// element of the source tensor at the matching position.
    pub open spec fn is_cat(ts: Seq<&Tensor<T>>, dim: int, r: &Tensor<T>) -> bool {
        let n = ts.len() as int;
        let s0 = ts[0].spec_shape();
        let inner = product(s0.skip(dim + 1));
        &&& r.wf()
        &&& r.spec_shape() == s0.update(dim, n as i32)
        &&& r.spec_data().len() == n * ts[0].spec_data().len()
        &&& forall|k: int|
            0 <= k < r.spec_data().len() ==> #[trigger] r.spec_data()[k] == ts[cat_source(
                k,
                n,
                inner,
            )].spec_data()[cat_position(k, n, inner)]
    }

    /// The text form: `shape ` and the bracketed shape on a line of its own,
    /// then the elements (one bracketed line for rank 1, nested bracketed rows
    /// for ranks 2 to 4, nothing for other ranks), then an empty line.
    pub fn to_text(&self) -> (r: String)
        requires
            self.wf(),
        ensures
            r@ == tensor_text(self.spec_shape(), self.spec_data()),
    {
        proof {
            reveal_strlit("shape [");
            reveal_strlit("]\n");
            reveal_strlit("[");
            reveal_strlit("]");
            reveal_strlit("\n\n");
        }
        let mut r = String::from_str("shape [");
        r = r.concat(joined_text(&self.shape, 0, self.shape.len()).as_str());
        r = r.concat("]\n");
        assert(self.shape@.subrange(0, self.shape@.len() as int) =~= self.shape@);
        assert(self.components@.subrange(0, self.components@.len() as int) =~= self.components@);
        let ghost head = r@;
        let rank = self.shape.len();
        if rank == 1 {
            r = r.concat("[");
            r = r.concat(joined_text(&self.components, 0, self.components.len()).as_str());
            r = r.concat("]\n");
        } else if 2 <= rank && rank <= 4 {
            let total = self.components.len();
            proof {
                lemma_product_positive(self.shape@);
            }
            let strides = Self::get_shape_pi(&self.shape);
            assert(self.shape@.skip(0) =~= self.shape@);
            r = r.concat("[");
            r = r.concat(self.rows_text(&strides, 0, 0).as_str());
            r = r.concat("]");
        }
        r = r.concat("\n\n");
        r
    }

    /// The blocks along axis `depth` of the sub-tensor whose elements start at
    /// `start`, each in brackets, as `rows` describes them.
    fn rows_text(&self, strides: &Vec<usize>, depth: usize, start: usize) -> (r: String)
        requires
            self.wf(),
            strides@.len() == self.shape@.len(),
            forall|x: int| 0 <= x < strides@.len() ==> #[trigger] strides@[x] == stride(self.shape@, x),
            depth + 2 <= self.shape@.len(),
            start + product(self.shape@.skip(depth as int)) <= self.components@.len(),
        ensures
            r@ == rows(
                self.shape@.skip(depth as int),
                self.components@.subrange(
                    start as int,
                    start + product(self.shape@.skip(depth as int)),
                ),
                self.shape@[depth as int] as int,
            ),
        decreases self.shape@.len() - depth,
    {
        proof {
            reveal_strlit("[");
            reveal_strlit("]");
            reveal_strlit("], \n");
        }
        let count = self.shape[depth] as usize;
        let m = strides[depth];
        let ghost s = self.shape@;
        let ghost sub_shape = s.skip(depth as int);
        let ghost whole = product(sub_shape);
        let total = self.components.len();
        let rank = self.shape.len();
        proof {
            lemma_product_split(s, depth as int);
        }
        let ghost data = self.components@.subrange(start as int, start + whole);
        proof {
            lemma_product_skip_step(s, depth as int);
            assert(sub_shape.drop_first() =~= s.skip(depth + 1));
        }
        let mut r = String::new();
        for i in 0..count
            invariant
                self.wf(),
                s == self.shape@,
                strides@.len() == s.len(),
                forall|x: int| 0 <= x < strides@.len() ==> #[trigger] strides@[x] == stride(s, x),
                depth + 2 <= s.len(),
                count == s[depth as int],
                m == product(s.skip(depth + 1)),
                sub_shape == s.skip(depth as int),
                sub_shape.drop_first() == s.skip(depth + 1),
                whole == product(sub_shape),
                whole == count * m,
                start + whole <= self.components@.len(),
                total == self.components@.len(),
                rank == s.len(),
                data == self.components@.subrange(start as int, start + whole),
                r@ == rows(sub_shape, data, i as int),
        {
            assert(i * m + m <= count * m) by (nonlinear_arith)
                requires
                    i < count,
            ;
            assert((i + 1) * m == i * m + m) by (nonlinear_arith);
            proof {
                reveal_strlit("[");
                reveal_strlit("]");
                reveal_strlit("], \n");
            }
            let sub_start = start + i * m;
            assert(data.subrange(i * m, (i + 1) * m) =~= self.components@.subrange(
                sub_start as int,
                sub_start + m,
            ));
            let inner = if depth + 2 == rank {
                joined_text(&self.components, sub_start, sub_start + m)
            } else {
                self.rows_text(strides, depth + 1, sub_start)
            };
            r = r.concat("[");
            r = r.concat(inner.as_str());
            if i + 1 == count {
                r = r.concat("]");
            } else {
                r = r.concat("], \n");
            }
        }
        r
    }

    /// `r` has the shape of `self` and, at every position of the buffer, `f`
    /// applied to the elements of `self` and `other` there.
    pub open spec fn combined(&self, other: &Tensor<T>, r: &Tensor<T>, f: spec_fn(T, T) -> T) -> bool {
        &&& r.wf()
        &&& r.spec_shape() == self.spec_shape()
        &&& forall|i: int|
            0 <= i < r.spec_data().len() ==> #[trigger] r.spec_data()[i] == f(
                self.spec_data()[i],
                other.spec_data()[i],
            )
    }

    /// Elementwise operands must have the same rank (else `RankMismatch`) and
    /// then the same shape (else `ShapeMismatch`).
    fn check_same_shape(&self, other: &Tensor<T>) -> (r: Result<(), TensorError>)
        ensures
            self.spec_shape().len() != other.spec_shape().len() ==> r == Err::<(), TensorError>(
                TensorError::RankMismatch,
            ),
            self.spec_shape().len() == other.spec_shape().len() && self.spec_shape()
                != other.spec_shape() ==> r == Err::<(), TensorError>(TensorError::ShapeMismatch),
            self.spec_shape() == other.spec_shape() ==> r is Ok,
    {
        if self.shape.len() != other.shape.len() {
            return Err(TensorError::RankMismatch);
        }
        for i in 0..self.shape.len()
            invariant
                self.shape@.len() == other.shape@.len(),
                forall|j: int| 0 <= j < i ==> self.shape@[j] == other.shape@[j],
        {
            if self.shape[i] != other.shape[i] {
                return Err(TensorError::ShapeMismatch);
            }
        }
        assert(self.shape@ =~= other.shape@);
        Ok(())
    }

    /// Elementwise sum. Fails with `RankMismatch` when the ranks differ and
    /// with `ShapeMismatch` when the shapes differ otherwise.
    pub fn add(&self, other: &Tensor<T>) -> (r: Result<Tensor<T>, TensorError>)
        requires
            self.wf(),
            other.wf(),
        ensures
            self.spec_shape().len() != other.spec_shape().len() ==> r == Err::<
                Tensor<T>,
                TensorError,
            >(TensorError::RankMismatch),
            self.spec_shape().len() == other.spec_shape().len() && self.spec_shape()
                != other.spec_shape() ==> r == Err::<Tensor<T>, TensorError>(
                TensorError::ShapeMismatch,
            ),
            self.spec_shape() == other.spec_shape() ==> (r matches Ok(t) && self.combined(
                other,
                &t,
                |x: T, y: T| T::sum_of(x, y),
            )),
    {
        match self.check_same_shape(other) {
            Err(e) => {
                return Err(e);
            },
            Ok(()) => {},
        }
        let n = self.components.len();
        let mut vec: Vec<T> = Vec::with_capacity(n);
        for i in 0..n
            invariant
                n == self.components@.len(),
                n == other.components@.len(),
                vec@.len() == i,
                forall|j: int|
                    0 <= j < i ==> #[trigger] vec@[j] == T::sum_of(
                        self.components@[j],
                        other.components@[j],
                    ),
        {
            vec.push(self.components[i].add(other.components[i]));
        }
        Ok(Tensor { shape: copy_vec(&self.shape), components: vec })
    }

    /// Elementwise product. Fails with `RankMismatch` when the ranks differ and
    /// with `ShapeMismatch` when the shapes differ otherwise.
    pub fn mul(&self, other: &Tensor<T>) -> (r: Result<Tensor<T>, TensorError>)
        requires
            self.wf(),
            other.wf(),
        ensures
            self.spec_shape().len() != other.spec_shape().len() ==> r == Err::<
                Tensor<T>,
                TensorError,
            >(TensorError::RankMismatch),
            self.spec_shape().len() == other.spec_shape().len() && self.spec_shape()
                != other.spec_shape() ==> r == Err::<Tensor<T>, TensorError>(
                TensorError::ShapeMismatch,
            ),
            self.spec_shape() == other.spec_shape() ==> (r matches Ok(t) && self.combined(
                other,
                &t,
                |x: T, y: T| T::product_of(x, y),
            )),
    {
        match self.check_same_shape(other) {
            Err(e) => {
                return Err(e);
            },
            Ok(()) => {},
        }
        let n = self.components.len();
        let mut vec: Vec<T> = Vec::with_capacity(n);
        for i in 0..n
            invariant
                n == self.components@.len(),
                n == other.components@.len(),
                vec@.len() == i,
                forall|j: int|
                    0 <= j < i ==> #[trigger] vec@[j] == T::product_of(
                        self.components@[j],
                        other.components@[j],
                    ),
        {
            vec.push(self.components[i].mul(other.components[i]));
        }
        Ok(Tensor { shape: copy_vec(&self.shape), components: vec })
    }
}

impl<T: TensorSub> Tensor<T> {
    /// Elementwise difference. Fails with `RankMismatch` when the ranks differ
    /// and with `ShapeMismatch` when the shapes differ otherwise.
    pub fn sub(&self, other: &Tensor<T>) -> (r: Result<Tensor<T>, TensorError>)
        requires
            self.wf(),
            other.wf(),
        ensures
            self.spec_shape().len() != other.spec_shape().len() ==> r == Err::<
                Tensor<T>,
                TensorError,
            >(TensorError::RankMismatch),
            self.spec_shape().len() == other.spec_shape().len() && self.spec_shape()
                != other.spec_shape() ==> r == Err::<Tensor<T>, TensorError>(
                TensorError::ShapeMismatch,
            ),
            self.spec_shape() == other.spec_shape() ==> (r matches Ok(t) && self.combined(
                other,
                &t,
                |x: T, y: T| T::difference_of(x, y),
            )),
    {
        match self.check_same_shape(other) {
            Err(e) => {
                return Err(e);
            },
            Ok(()) => {},
        }
        let n = self.components.len();
        let mut vec: Vec<T> = Vec::with_capacity(n);
        for i in 0..n
            invariant
                n == self.components@.len(),
                n == other.components@.len(),
                vec@.len() == i,
                forall|j: int|
                    0 <= j < i ==> #[trigger] vec@[j] == T::difference_of(
                        self.components@[j],
                        other.components@[j],
                    ),
        {
            vec.push(self.components[i].sub(other.components[i]));
        }
        Ok(Tensor { shape: copy_vec(&self.shape), components: vec })
    }
}

impl<T: TensorDiv> Tensor<T> {
    /// Elementwise quotient. Fails with `RankMismatch` when the ranks differ
    /// and with `ShapeMismatch` when the shapes differ otherwise. Every
    /// quotient must be defined for the element type.
    pub fn div(&self, other: &Tensor<T>) -> (r: Result<Tensor<T>, TensorError>)
        requires
            self.wf(),
            other.wf(),
            self.spec_shape() == other.spec_shape() ==> forall|i: int|
                0 <= i < self.spec_data().len() ==> T::quotient_defined(
                    #[trigger] self.spec_data()[i],
                    other.spec_data()[i],
                ),
        ensures
            self.spec_shape().len() != other.spec_shape().len() ==> r == Err::<
                Tensor<T>,
                TensorError,
            >(TensorError::RankMismatch),
            self.spec_shape().len() == other.spec_shape().len() && self.spec_shape()
                != other.spec_shape() ==> r == Err::<Tensor<T>, TensorError>(
                TensorError::ShapeMismatch,
            ),
            self.spec_shape() == other.spec_shape() ==> (r matches Ok(t) && self.combined(
                other,
                &t,
                |x: T, y: T| T::quotient_of(x, y),
            )),
    {
        match self.check_same_shape(other) {
            Err(e) => {
                return Err(e);
            },
            Ok(()) => {},
        }
        let n = self.components.len();
        let mut vec: Vec<T> = Vec::with_capacity(n);
        for i in 0..n
            invariant
                n == self.components@.len(),
                n == other.components@.len(),
                forall|j: int|
                    0 <= j < n ==> T::quotient_defined(
                        #[trigger] self.components@[j],
                        other.components@[j],
                    ),
                vec@.len() == i,
                forall|j: int|
                    0 <= j < i ==> #[trigger] vec@[j] == T::quotient_of(
                        self.components@[j],
                        other.components@[j],
                    ),
        {
            vec.push(self.components[i].div(other.components[i]));
        }
        Ok(Tensor { shape: copy_vec(&self.shape), components: vec })
    }
}

} // verus!
