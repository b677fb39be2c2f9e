//! The text form of a tensor: its shape, then its elements as nested
//! bracketed rows.
use vstd::prelude::*;
use crate::shape::product;
use crate::traits::TensorTrait;

verus! {

/// The texts of the elements of `data`, separated by `, `.
pub open spec fn joined<T: TensorTrait>(data: Seq<T>) -> Seq<char>
    decreases data.len(),
{
    if data.len() == 0 {
        Seq::empty()
    } else if data.len() == 1 {
        T::text_of(data[0])
    } else {
        joined(data.drop_last()) + seq![',', ' '] + T::text_of(data.last())
    }
}

/// The first `i` blocks along the outermost axis of a tensor of shape `shape`
/// (of rank at least 2) over `data`: each block in brackets, the innermost
/// blocks holding joined elements, and every block but the last of its axis
/// followed by `, ` and a line break.
pub open spec fn rows<T: TensorTrait>(shape: Seq<i32>, data: Seq<T>, i: int) -> Seq<char>
    decreases shape.len(), i,
{
    if i <= 0 || shape.len() < 2 {
        Seq::empty()
    } else {
        let m = product(shape.drop_first());
        let sub = data.subrange((i - 1) * m, i * m);
        let inner = if shape.len() == 2 {
            joined(sub)
        } else {
            rows(shape.drop_first(), sub, shape[1] as int)
        };
        rows(shape, data, i - 1) + seq!['['] + inner + if i == shape[0] {
            seq![']']
        } else {
            seq![']', ',', ' ', '\n']
        }
    }
}

/// The elements of a tensor of shape `shape` over `data`: one bracketed line
/// for rank 1, nested bracketed rows for ranks 2 to 4, and nothing otherwise.
pub open spec fn body_text<T: TensorTrait>(shape: Seq<i32>, data: Seq<T>) -> Seq<char> {
    if shape.len() == 1 {
        seq!['['] + joined(data) + seq![']', '\n']
    } else if 2 <= shape.len() <= 4 {
        seq!['['] + rows(shape, data, shape[0] as int) + seq![']']
    } else {
        Seq::empty()
    }
}

/// The full text of a tensor: `shape ` and the bracketed shape on a line of
/// its own, then the elements, then an empty line.
pub open spec fn tensor_text<T: TensorTrait>(shape: Seq<i32>, data: Seq<T>) -> Seq<char> {
    seq!['s', 'h', 'a', 'p', 'e', ' ', '['] + joined(shape) + seq![']', '\n'] + body_text(
        shape,
        data,
    ) + seq!['\n', '\n']
}

} // verus!
