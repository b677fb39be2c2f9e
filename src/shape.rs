//! The shape and index algebra of row-major tensors: element counts, flat
//! offsets of multi-indices, and stride tables.
use vstd::prelude::*;

verus! {

/// The number of elements of a tensor of shape `s`: the product of its axis sizes.
pub open spec fn product(s: Seq<i32>) -> int
    decreases s.len(),
{
    if s.len() == 0 {
        1
    } else {
        product(s.drop_last()) * s.last()
    }
}

/// Every axis size of `s` is positive.
pub open spec fn positive_shape(s: Seq<i32>) -> bool {
    forall|i: int| 0 <= i < s.len() ==> s[i] > 0
}

/// `idx` addresses an element of a tensor of shape `s`: one coordinate per
/// axis, each within the size of its axis.
pub open spec fn valid_index(s: Seq<i32>, idx: Seq<i32>) -> bool {
    &&& idx.len() == s.len()
    &&& forall|i: int| 0 <= i < s.len() ==> 0 <= #[trigger] idx[i] < s[i]
}

/// The row-major flat offset of `idx` in shape `s`: the last axis varies fastest.
pub open spec fn offset(s: Seq<i32>, idx: Seq<i32>) -> int
    decreases s.len(),
{
    if s.len() == 0 || idx.len() == 0 {
        0
    } else {
        offset(s.drop_last(), idx.drop_last()) * s.last() + idx.last()
    }
}

/// The stride of axis `x`: how far the flat offset moves when the coordinate
/// on that axis grows by one, that is the product of the sizes after it.
pub open spec fn stride(s: Seq<i32>, x: int) -> int {
    product(s.skip(x + 1))
}

/// The product of a concatenation is the product of the products.
pub proof fn lemma_product_concat(a: Seq<i32>, b: Seq<i32>)
    ensures
        product(a + b) == product(a) * product(b),
    decreases b.len(),
{
    if b.len() == 0 {
        assert(a + b =~= a);
    } else {
        assert((a + b).drop_last() =~= a + b.drop_last());
        lemma_product_concat(a, b.drop_last());
        assert(product(a) * product(b.drop_last()) * b.last() == product(a) * (product(
            b.drop_last(),
        ) * b.last())) by (nonlinear_arith);
    }
}

/// A shape with positive axis sizes holds at least one element.
pub proof fn lemma_product_positive(s: Seq<i32>)
    requires
        positive_shape(s),
    ensures
        product(s) >= 1,
    decreases s.len(),
{
    if s.len() > 0 {
        lemma_product_positive(s.drop_last());
        assert(product(s.drop_last()) * s.last() >= 1) by (nonlinear_arith)
            requires
                product(s.drop_last()) >= 1,
                s.last() >= 1,
        ;
    }
}

/// Splitting a positive shape at `k`: both parts hold at least one element and
/// at most as many as the whole.
pub proof fn lemma_product_split(s: Seq<i32>, k: int)
    requires
        positive_shape(s),
        0 <= k <= s.len(),
    ensures
        product(s) == product(s.take(k)) * product(s.skip(k)),
        1 <= product(s.take(k)) <= product(s),
        1 <= product(s.skip(k)) <= product(s),
{
    assert(s =~= s.take(k) + s.skip(k));
    lemma_product_concat(s.take(k), s.skip(k));
    lemma_product_positive(s.take(k));
    lemma_product_positive(s.skip(k));
    let p = product(s.take(k));
    let q = product(s.skip(k));
    assert(p <= p * q && q <= p * q) by (nonlinear_arith)
        requires
            p >= 1,
            q >= 1,
    ;
}

/// The prefix of length `k + 1` holds `s[k]` times as many elements as the prefix of length `k`.
pub proof fn lemma_product_take_step(s: Seq<i32>, k: int)
    requires
        0 <= k < s.len(),
    ensures
        product(s.take(k + 1)) == product(s.take(k)) * s[k],
{
    assert(s.take(k + 1).drop_last() =~= s.take(k));
}

/// The suffix from `k` holds `s[k]` times as many elements as the suffix from `k + 1`.
pub proof fn lemma_product_skip_step(s: Seq<i32>, k: int)
    requires
        0 <= k < s.len(),
    ensures
        product(s.skip(k)) == s[k] * product(s.skip(k + 1)),
{
    let head = seq![s[k]];
    assert(s.skip(k) =~= head + s.skip(k + 1));
    lemma_product_concat(head, s.skip(k + 1));
    assert(head.drop_last() =~= Seq::<i32>::empty());
    assert(product(Seq::<i32>::empty()) == 1);
    assert(product(head) == s[k]);
}

/// The offset of the first `k + 1` coordinates extends that of the first `k` by one axis.
pub proof fn lemma_offset_take_step(s: Seq<i32>, idx: Seq<i32>, k: int)
    requires
        idx.len() == s.len(),
        0 <= k < s.len(),
    ensures
        offset(s.take(k + 1), idx.take(k + 1)) == offset(s.take(k), idx.take(k)) * s[k] + idx[k],
{
    assert(s.take(k + 1).drop_last() =~= s.take(k));
    assert(idx.take(k + 1).drop_last() =~= idx.take(k));
}

/// A valid multi-index lands inside the flat buffer.
pub proof fn lemma_offset_bound(s: Seq<i32>, idx: Seq<i32>)
    requires
        valid_index(s, idx),
    ensures
        0 <= offset(s, idx) < product(s),
    decreases s.len(),
{
    if s.len() > 0 {
        let s0 = s.drop_last();
        let i0 = idx.drop_last();
        assert(valid_index(s0, i0)) by {
            assert forall|i: int| 0 <= i < s0.len() implies 0 <= #[trigger] i0[i] < s0[i] by {
                assert(idx[i] == i0[i]);
            }
        }
        lemma_offset_bound(s0, i0);
        let o = offset(s0, i0);
        let p = product(s0);
        let n = s.last();
        let j = idx.last();
        assert(idx[idx.len() - 1] == j);
        assert(0 <= o * n + j < p * n) by (nonlinear_arith)
            requires
                0 <= o < p,
                0 <= j < n,
        ;
    }
}

/// Offsets split along a concatenation of shapes: the prefix coordinates count
/// whole blocks of the suffix's size.
pub proof fn lemma_offset_concat(a: Seq<i32>, b: Seq<i32>, ia: Seq<i32>, ib: Seq<i32>)
    requires
        ia.len() == a.len(),
        ib.len() == b.len(),
    ensures
        offset(a + b, ia + ib) == offset(a, ia) * product(b) + offset(b, ib),
    decreases b.len(),
{
    if b.len() == 0 {
        assert(a + b =~= a);
        assert(ia + ib =~= ia);
    } else {
        assert((a + b).drop_last() =~= a + b.drop_last());
        assert((ia + ib).drop_last() =~= ia + ib.drop_last());
        lemma_offset_concat(a, b.drop_last(), ia, ib.drop_last());
        let oa = offset(a, ia);
        let pb = product(b.drop_last());
        let ob = offset(b.drop_last(), ib.drop_last());
        let n = b.last();
        assert((oa * pb + ob) * n == oa * (pb * n) + ob * n) by (nonlinear_arith);
    }
}

/// How many entries of a reshape target are the inference marker `-1`.
pub open spec fn count_inferred(s: Seq<i32>) -> int
    decreases s.len(),
{
    if s.len() == 0 {
        0
    } else {
        count_inferred(s.drop_last()) + if s.last() == -1 {
            1int
        } else {
            0int
        }
    }
}

/// The product of the entries of a reshape target other than `-1`.
pub open spec fn known_product(s: Seq<i32>) -> int
    decreases s.len(),
{
    if s.len() == 0 {
        1
    } else if s.last() == -1 {
        known_product(s.drop_last())
    } else {
        known_product(s.drop_last()) * s.last()
    }
}

/// Every entry of a reshape target other than `-1` is a positive size.
pub open spec fn known_positive(s: Seq<i32>) -> bool {
    forall|i: int| 0 <= i < s.len() && s[i] != -1 ==> s[i] > 0
}

/// A reshape target with each `-1` replaced by `size`.
pub open spec fn resolve(s: Seq<i32>, size: i32) -> Seq<i32> {
    s.map_values(|x: i32| if x == -1 { size } else { x })
}

/// Extending a target by one entry extends its count of markers and its known product.
pub proof fn lemma_target_take_step(s: Seq<i32>, k: int)
    requires
        0 <= k < s.len(),
    ensures
        count_inferred(s.take(k + 1)) == count_inferred(s.take(k)) + if s[k] == -1 {
            1int
        } else {
            0int
        },
        known_product(s.take(k + 1)) == if s[k] == -1 {
            known_product(s.take(k))
        } else {
            known_product(s.take(k)) * s[k]
        },
{
    assert(s.take(k + 1).drop_last() =~= s.take(k));
}

/// Where every known entry is positive, the known product of a prefix is at
/// least one and at most that of the whole target.
pub proof fn lemma_known_product_prefix(s: Seq<i32>, k: int)
    requires
        known_positive(s),
        0 <= k <= s.len(),
    ensures
        1 <= known_product(s.take(k)) <= known_product(s),
    decreases s.len() - k,
{
    if k == s.len() {
        assert(s.take(k) =~= s);
        lemma_known_product_positive(s);
    } else {
        lemma_target_take_step(s, k);
        lemma_known_product_prefix(s, k + 1);
        lemma_known_product_positive(s.take(k));
        let p = known_product(s.take(k));
        if s[k] != -1 {
            let n = s[k] as int;
            assert(p <= p * n) by (nonlinear_arith)
                requires
                    p >= 1,
                    n >= 1,
            ;
        }
    }
}

/// Where every known entry is positive, the known product is at least one.
pub proof fn lemma_known_product_positive(s: Seq<i32>)
    requires
        known_positive(s),
    ensures
        known_product(s) >= 1,
    decreases s.len(),
{
    if s.len() > 0 {
        lemma_known_product_positive(s.drop_last());
        if s.last() != -1 {
            let p = known_product(s.drop_last());
            let n = s.last() as int;
            assert(p * n >= 1) by (nonlinear_arith)
                requires
                    p >= 1,
                    n >= 1,
            ;
        }
    }
}

/// A target without markers resolves to itself, and one with a single marker
/// resolves to a shape that counts `size` times its known product.
pub proof fn lemma_resolve_product(s: Seq<i32>, size: i32)
    requires
        count_inferred(s) <= 1,
    ensures
        count_inferred(s) >= 0,
        count_inferred(s) == 0 ==> resolve(s, size) == s && known_product(s) == product(s),
        count_inferred(s) == 1 ==> product(resolve(s, size)) == known_product(s) * size,
    decreases s.len(),
{
    if s.len() == 0 {
        assert(resolve(s, size) =~= s);
    } else {
        let t = s.drop_last();
        let r = resolve(s, size);
        assert(r.drop_last() =~= resolve(t, size));
        lemma_resolve_product(t, size);
        if count_inferred(s) == 0 {
            assert forall|i: int| 0 <= i < s.len() implies r[i] == s[i] by {
                if i < t.len() {
                    assert(r[i] == resolve(t, size)[i]);
                }
            }
            assert(r =~= s);
        } else if s.last() == -1 {
            assert(count_inferred(t) == 0);
        } else {
            let k = known_product(t);
            let n = s.last() as int;
            assert(k * size * n == k * n * size) by (nonlinear_arith);
        }
    }
}

/// Positive known entries and a positive inferred size resolve to a positive shape.
pub proof fn lemma_resolve_positive(s: Seq<i32>, size: i32)
    requires
        known_positive(s),
        size > 0,
    ensures
        positive_shape(resolve(s, size)),
{
}

/// The product of a shape with axis `k` set to `v`.
pub proof fn lemma_product_update(s: Seq<i32>, k: int, v: i32)
    requires
        0 <= k < s.len(),
    ensures
        product(s.update(k, v)) == product(s.take(k)) * v * product(s.skip(k + 1)),
{
    let head = seq![v];
    assert(s.update(k, v) =~= s.take(k) + head + s.skip(k + 1));
    lemma_product_concat(s.take(k) + head, s.skip(k + 1));
    lemma_product_concat(s.take(k), head);
    assert(head.drop_last() =~= Seq::<i32>::empty());
    assert(product(Seq::<i32>::empty()) == 1);
    assert(product(head) == v);
}

/// The product of a shape with an axis of size one inserted at `k`.
pub proof fn lemma_product_insert_one(s: Seq<i32>, k: int)
    requires
        0 <= k <= s.len(),
    ensures
        product(s.insert(k, 1)) == product(s),
{
    let head = seq![1i32];
    assert(s.insert(k, 1) =~= s.take(k) + head + s.skip(k));
    lemma_product_concat(s.take(k) + head, s.skip(k));
    lemma_product_concat(s.take(k), head);
    assert(head.drop_last() =~= Seq::<i32>::empty());
    assert(product(Seq::<i32>::empty()) == 1);
    assert(product(head) == 1);
    assert(s =~= s.take(k) + s.skip(k));
    lemma_product_concat(s.take(k), s.skip(k));
}

/// Shapes `a` and `b` have the same rank and the same size on every axis but `dim`.
pub open spec fn agree_except(a: Seq<i32>, b: Seq<i32>, dim: int) -> bool {
    &&& a.len() == b.len()
    &&& forall|x: int| 0 <= x < a.len() && x != dim ==> #[trigger] a[x] == b[x]
}

/// In a concatenation of `n` tensors along an axis where each has size one,
/// with `inner` elements per step on that axis: the tensor that element `k`
/// of the result comes from.
pub open spec fn cat_source(k: int, n: int, inner: int) -> int {
    (k % (n * inner)) / inner
}

/// The position, in the buffer of its source tensor, of element `k` of such a
/// concatenation.
pub open spec fn cat_position(k: int, n: int, inner: int) -> int {
    (k / (n * inner)) * inner + k % inner
}

/// Every element of such a concatenation comes from one of the `n` tensors,
/// from within its buffer of `outer * inner` elements.
pub proof fn lemma_cat_bounds(k: int, n: int, inner: int, outer: int)
    requires
        n >= 1,
        inner >= 1,
        outer >= 1,
        0 <= k < outer * (n * inner),
    ensures
        0 <= cat_source(k, n, inner) < n,
        0 <= cat_position(k, n, inner) < outer * inner,
{
    let block = n * inner;
    assert(n * inner >= 1) by (nonlinear_arith)
        requires
            n >= 1,
            inner >= 1,
    ;
    let o = k / block;
    let rem = k % block;
    vstd::arithmetic::div_mod::lemma_fundamental_div_mod(k, block);
    vstd::arithmetic::div_mod::lemma_mod_bound(k, block);
    vstd::arithmetic::div_mod::lemma_mod_bound(k, inner);
    assert(0 <= o < outer) by (nonlinear_arith)
        requires
            block >= 1,
            k == block * o + rem,
            0 <= rem < block,
            0 <= k < outer * block,
    ;
    let t = rem / inner;
    vstd::arithmetic::div_mod::lemma_fundamental_div_mod(rem, inner);
    vstd::arithmetic::div_mod::lemma_mod_bound(rem, inner);
    assert(0 <= t < n) by (nonlinear_arith)
        requires
            inner >= 1,
            rem == inner * t + rem % inner,
            0 <= rem % inner < inner,
            0 <= rem < n * inner,
    ;
    let q = k % inner;
    assert(0 <= o * inner + q < outer * inner) by (nonlinear_arith)
        requires
            0 <= o < outer,
            0 <= q < inner,
    ;
}

/// A rank-2 shape counts rows times columns.
pub proof fn lemma_product_rank2(s: Seq<i32>)
    requires
        s.len() == 2,
    ensures
        product(s) == s[0] * s[1],
{
    let first = s.drop_last();
    assert(first.drop_last() =~= Seq::<i32>::empty());
    assert(product(first.drop_last()) == 1);
    assert(first.last() == s[0]);
    assert(product(first) == s[0]);
}

/// The offset of a valid index, split at axis `dim`: the coordinates before
/// it count blocks of `s[dim]` steps, each step spanning the elements of the
/// axes after it.
pub proof fn lemma_offset_split_axis(s: Seq<i32>, idx: Seq<i32>, dim: int)
    requires
        valid_index(s, idx),
        0 <= dim < s.len(),
    ensures
        offset(s, idx) == (offset(s.take(dim), idx.take(dim)) * s[dim] + idx[dim]) * product(
            s.skip(dim + 1),
        ) + offset(s.skip(dim + 1), idx.skip(dim + 1)),
        0 <= offset(s.take(dim), idx.take(dim)) < product(s.take(dim)),
        0 <= offset(s.skip(dim + 1), idx.skip(dim + 1)) < product(s.skip(dim + 1)),
{
    let head = s.take(dim + 1);
    let ihead = idx.take(dim + 1);
    assert(s =~= head + s.skip(dim + 1));
    assert(idx =~= ihead + idx.skip(dim + 1));
    lemma_offset_concat(head, s.skip(dim + 1), ihead, idx.skip(dim + 1));
    lemma_offset_take_step(s, idx, dim);
    assert(valid_index(s.take(dim), idx.take(dim)));
    assert(valid_index(s.skip(dim + 1), idx.skip(dim + 1))) by {
        assert forall|i: int| 0 <= i < s.len() - dim - 1 implies 0 <= #[trigger] idx.skip(
            dim + 1,
        )[i] < s.skip(dim + 1)[i] by {
            assert(idx.skip(dim + 1)[i] == idx[i + dim + 1]);
        }
    }
    lemma_offset_bound(s.take(dim), idx.take(dim));
    lemma_offset_bound(s.skip(dim + 1), idx.skip(dim + 1));
}

/// The sum over the first `k` axes of coordinate times stride.
pub open spec fn stride_sum(s: Seq<i32>, idx: Seq<i32>, k: int) -> int
    decreases k,
{
    if k <= 0 {
        0
    } else {
        stride_sum(s, idx, k - 1) + idx[k - 1] * stride(s, k - 1)
    }
}

/// Dropping the last axis divides the stride of every other axis by its size.
proof fn lemma_stride_drop_last(s: Seq<i32>, x: int)
    requires
        0 <= x < s.len() - 1,
    ensures
        stride(s, x) == stride(s.drop_last(), x) * s.last(),
{
    assert(s.skip(x + 1).drop_last() =~= s.drop_last().skip(x + 1));
    assert(s.skip(x + 1).last() == s.last());
}

/// Over the axes before the last, the stride sum of `s` is that of `s`
/// without its last axis, times the last size.
proof fn lemma_stride_sum_drop_last(s: Seq<i32>, idx: Seq<i32>, k: int)
    requires
        idx.len() == s.len(),
        0 <= k <= s.len() - 1,
    ensures
        stride_sum(s, idx, k) == stride_sum(s.drop_last(), idx.drop_last(), k) * s.last(),
    decreases k,
{
    if k > 0 {
        lemma_stride_sum_drop_last(s, idx, k - 1);
        lemma_stride_drop_last(s, k - 1);
        let a = stride_sum(s.drop_last(), idx.drop_last(), k - 1);
        let c = idx[k - 1] as int;
        let t = stride(s.drop_last(), k - 1);
        let l = s.last() as int;
        assert(idx.drop_last()[k - 1] == c);
        assert(a * l + c * (t * l) == (a + c * t) * l) by (nonlinear_arith);
    }
}

/// The row-major offset is the sum over the axes of coordinate times stride.
pub proof fn lemma_offset_is_stride_sum(s: Seq<i32>, idx: Seq<i32>)
    requires
        idx.len() == s.len(),
    ensures
        offset(s, idx) == stride_sum(s, idx, s.len() as int),
    decreases s.len(),
{
    if s.len() > 0 {
        let n = s.len() as int;
        lemma_offset_is_stride_sum(s.drop_last(), idx.drop_last());
        lemma_stride_sum_drop_last(s, idx, n - 1);
        assert(s.skip(n) =~= Seq::<i32>::empty());
        assert(stride(s, n - 1) == 1);
    }
}

} // verus!
