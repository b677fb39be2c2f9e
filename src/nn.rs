//! Neural-network building blocks over tensors.
use vstd::prelude::*;
use vstd::string::StringExecFns;
use crate::tensor::Tensor;
use crate::text::{signed_decimal, signed_decimal_string};
use crate::traits::TensorTrait;

verus! {

/// A layer that maps an input tensor to an output tensor.
pub trait Module<T: TensorTrait> {
    fn forward<'a>(&'a self, inputs: &'a Tensor<T>) -> &'a Tensor<T>;
}

/// A fully connected layer: `weights` of shape `[in_features, out_features]`
/// and `bias` of shape `[out_features]`.
pub struct Linear<T: TensorTrait> {
    pub in_features: i32,
    pub out_features: i32,
    pub weights: Tensor<T>,
    pub bias: Tensor<T>,
    pub module_name: String,
}

impl<T: TensorTrait> Linear<T> {
    /// The description of this layer: its name, then its input and output
    /// feature counts, one per line.
    pub fn describe(&self) -> (r: String)
        ensures
            r@ == "module_name: "@ + self.module_name@ + "\nin_features: "@ + signed_decimal(
                self.in_features as int,
            ) + "\nout_features:"@ + signed_decimal(self.out_features as int),
    {
        String::from_str("module_name: ").concat(self.module_name.as_str()).concat(
            "\nin_features: ",
        ).concat(signed_decimal_string(self.in_features as i64).as_str()).concat(
            "\nout_features:",
        ).concat(signed_decimal_string(self.out_features as i64).as_str())
    }
}

/// The rectified linear activation.
pub struct ReLU {
    pub module_name: String,
}

impl ReLU {
    /// The description of this module: `module_name: ` followed by its name.
    pub fn describe(&self) -> (r: String)
        ensures
            r@ == "module_name: "@ + self.module_name@,
    {
        String::from_str("module_name: ").concat(self.module_name.as_str())
    }
}

} // verus!
