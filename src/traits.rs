use vstd::prelude::*;
use crate::text::{signed_decimal, signed_decimal_string};

verus! {

/// The numeric capabilities every tensor element has: a zero, addition,
/// multiplication and a text form. Each operation is described by a spec
/// function of the implementing type, so contracts on tensors can speak of
/// it exactly.
pub trait TensorTrait: Sized + Copy {
    /// The additive identity.
    spec fn zero_value() -> Self;

    /// What `add` returns.
    spec fn sum_of(a: Self, b: Self) -> Self;

    /// What `mul` returns.
    spec fn product_of(a: Self, b: Self) -> Self;

    /// What `text` returns.
    spec fn text_of(a: Self) -> Seq<char>;

    fn zero() -> (r: Self)
        ensures
            r == Self::zero_value(),
    ;

    fn add(self, other: Self) -> (r: Self)
        ensures
            r == Self::sum_of(self, other),
    ;

    fn mul(self, other: Self) -> (r: Self)
        ensures
            r == Self::product_of(self, other),
    ;

    /// The element as it is printed.
    fn text(self) -> (r: String)
        ensures
            r@ == Self::text_of(self),
    ;
}

/// Elements that can be subtracted.
pub trait TensorSub: TensorTrait {
    /// What `sub` returns.
    spec fn difference_of(a: Self, b: Self) -> Self;

    fn sub(self, other: Self) -> (r: Self)
        ensures
            r == Self::difference_of(self, other),
    ;
}

/// Elements that can be divided, where the quotient is defined.
pub trait TensorDiv: TensorTrait {
    /// Whether `a / b` is defined (for integers: a nonzero divisor, and no overflow).
    spec fn quotient_defined(a: Self, b: Self) -> bool;

    /// What `div` returns where the quotient is defined.
    spec fn quotient_of(a: Self, b: Self) -> Self;

    fn div(self, other: Self) -> (r: Self)
        requires
            Self::quotient_defined(self, other),
        ensures
            r == Self::quotient_of(self, other),
    ;
}

// Fixed-width integers follow the wrapping semantics of release builds for
// addition, subtraction and multiplication; division truncates toward zero;
// the text is the decimal form.

impl TensorTrait for i64 {
    open spec fn zero_value() -> i64 {
        0
    }

    open spec fn sum_of(a: i64, b: i64) -> i64 {
        vstd::wrapping::i64_specs::wrapping_add(a, b)
    }

    open spec fn product_of(a: i64, b: i64) -> i64 {
        vstd::wrapping::i64_specs::wrapping_mul(a, b)
    }

    fn zero() -> (r: i64) {
        0
    }

    fn add(self, other: i64) -> (r: i64) {
        self.wrapping_add(other)
    }

    fn mul(self, other: i64) -> (r: i64) {
        self.wrapping_mul(other)
    }

    open spec fn text_of(a: i64) -> Seq<char> {
        signed_decimal(a as int)
    }

    fn text(self) -> (r: String) {
        signed_decimal_string(self as i64)
    }
}

impl TensorSub for i64 {
    open spec fn difference_of(a: i64, b: i64) -> i64 {
        vstd::wrapping::i64_specs::wrapping_sub(a, b)
    }

    fn sub(self, other: i64) -> (r: i64) {
        self.wrapping_sub(other)
    }
}

impl TensorDiv for i64 {
    open spec fn quotient_defined(a: i64, b: i64) -> bool {
        a.checked_div(b) is Some
    }

    open spec fn quotient_of(a: i64, b: i64) -> i64 {
        a.checked_div(b)->Some_0
    }

    fn div(self, other: i64) -> (r: i64) {
        self.checked_div(other).unwrap()
    }
}

impl TensorTrait for i32 {
    open spec fn zero_value() -> i32 {
        0
    }

    open spec fn sum_of(a: i32, b: i32) -> i32 {
        vstd::wrapping::i32_specs::wrapping_add(a, b)
    }

    open spec fn product_of(a: i32, b: i32) -> i32 {
        vstd::wrapping::i32_specs::wrapping_mul(a, b)
    }

    fn zero() -> (r: i32) {
        0
    }

    fn add(self, other: i32) -> (r: i32) {
        self.wrapping_add(other)
    }

    fn mul(self, other: i32) -> (r: i32) {
        self.wrapping_mul(other)
    }

    open spec fn text_of(a: i32) -> Seq<char> {
        signed_decimal(a as int)
    }

    fn text(self) -> (r: String) {
        signed_decimal_string(self as i64)
    }
}

impl TensorSub for i32 {
    open spec fn difference_of(a: i32, b: i32) -> i32 {
        vstd::wrapping::i32_specs::wrapping_sub(a, b)
    }

    fn sub(self, other: i32) -> (r: i32) {
        self.wrapping_sub(other)
    }
}

impl TensorDiv for i32 {
    open spec fn quotient_defined(a: i32, b: i32) -> bool {
        a.checked_div(b) is Some
    }

    open spec fn quotient_of(a: i32, b: i32) -> i32 {
        a.checked_div(b)->Some_0
    }

    fn div(self, other: i32) -> (r: i32) {
        self.checked_div(other).unwrap()
    }
}

} // verus!
