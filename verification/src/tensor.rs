//! The tensor values that the conversion carries, and the operations on them
//! that are taken on trust from `candle_core`.
//!
//! A tensor is opaque here: the conversion never reads its elements. It
//! copies tensors by reference and, on request, makes new ones filled with
//! zeros.

use candle_core::{DType, Device, Error, Tensor};
use vstd::prelude::*;

verus! {

/// `candle_core::Tensor`, a value that is carried and never looked into.
#[verifier::external_type_specification]
#[verifier::external_body]
pub struct ExTensor(candle_core::Tensor);

/// `candle_core::Device`, which says where new tensors are made.
#[verifier::external_type_specification]
#[verifier::external_body]
pub struct ExDevice(candle_core::Device);

/// `candle_core::Error`, which is handed on as it came.
#[verifier::external_type_specification]
#[verifier::external_body]
pub struct ExError(candle_core::Error);

/// The extent of the tensor `t` along each of its axes, outermost first:
/// what `candle_core::Tensor::dims` gives.
pub uninterp spec fn tensor_dims(t: Tensor) -> Seq<usize>;

/// Every element that the tensor `t` holds is zero.
pub uninterp spec fn tensor_is_zeroed(t: Tensor) -> bool;

/// The most elements that a tensor of 32-bit floats can have: their bytes
/// must be no more than `isize::MAX`.
pub open spec fn max_f32_elements() -> int {
    isize::MAX / 4
}

/// Calls `Clone::clone` of `candle_core::Tensor`. A tensor is a counted
/// reference to its storage and layout, so the clone is the tensor itself.
#[verifier::external_body]
pub(crate) fn clone_tensor(t: &Tensor) -> (r: Tensor)
    ensures
        r == *t,
{
    t.clone()
}

/// Calls `candle_core::Tensor::zeros` for a tensor of 32-bit floats with two
/// axes. Where the device makes it, the tensor has `rows` by `cols`
/// elements, all zero. Nothing is claimed of when the device refuses. The
/// bound keeps the number of elements and their size in bytes within what
/// an allocation admits.
#[verifier::external_body]
pub(crate) fn zeros_f32(rows: usize, cols: usize, device: &Device) -> (r: Result<Tensor, Error>)
    requires
        rows * cols <= max_f32_elements(),
    ensures
        r is Ok ==> tensor_dims(r->Ok_0) == seq![rows, cols] && tensor_is_zeroed(r->Ok_0),
{
    Tensor::zeros((rows, cols), DType::F32, device)
}

} // verus!
