//! The shape of the placeholder tensors that stand in for an embedding
//! adapter where a checkpoint has none.

use crate::tensor::{max_f32_elements, tensor_dims, tensor_is_zeroed};
use candle_core::Tensor;
use vstd::prelude::*;

verus! {

/// The sizes from which the placeholder pair is made: the first factor has
/// `rank` by `vocab_size` elements, the second `hidden_size` by `rank`.
/// Both fit in memory as tensors of 32-bit floats.
#[derive(Debug, Clone, Copy)]
pub struct DummyShape {
    vocab_size: usize,
    hidden_size: usize,
    rank: usize,
}

/// Both placeholder tensors of these sizes can be allocated.
pub open spec fn shape_fits(vocab_size: usize, hidden_size: usize, rank: usize) -> bool {
    &&& rank * vocab_size <= max_f32_elements()
    &&& hidden_size * rank <= max_f32_elements()
}

/// Whether a tensor of `rows` by `cols` 32-bit floats can be allocated.
fn elements_fit(rows: usize, cols: usize) -> (r: bool)
    ensures
        r == (rows * cols <= max_f32_elements()),
{
    let limit: usize = (isize::MAX / 4) as usize;
    match rows.checked_mul(cols) {
        Some(count) => count <= limit,
        None => false,
    }
}

impl DummyShape {
    /// The size of the vocabulary.
    pub closed spec fn vocab(&self) -> usize {
        self.vocab_size
    }

    /// The width of a hidden state.
    pub closed spec fn hidden(&self) -> usize {
        self.hidden_size
    }

    /// The rank of the adapter.
    pub closed spec fn adapter_rank(&self) -> usize {
        self.rank
    }

    /// Both placeholder tensors of this shape can be allocated.
    #[verifier::type_invariant]
    pub open spec fn fits(&self) -> bool {
        shape_fits(self.vocab(), self.hidden(), self.adapter_rank())
    }

    /// The shape with these sizes, where both placeholder tensors fit in
    /// memory; `None` where one does not.
    pub fn new(vocab_size: usize, hidden_size: usize, rank: usize) -> (r: Option<DummyShape>)
        ensures
            r is Some == shape_fits(vocab_size, hidden_size, rank),
            r is Some ==> r->0.vocab() == vocab_size && r->0.hidden() == hidden_size
                && r->0.adapter_rank() == rank,
    {
        if elements_fit(rank, vocab_size) && elements_fit(hidden_size, rank) {
            Some(DummyShape { vocab_size, hidden_size, rank })
        } else {
            None
        }
    }

    /// The size of the vocabulary.
    pub fn vocab_size(&self) -> (r: usize)
        ensures
            r == self.vocab(),
    {
        self.vocab_size
    }

    /// The width of a hidden state.
    pub fn hidden_size(&self) -> (r: usize)
        ensures
            r == self.hidden(),
    {
        self.hidden_size
    }

    /// The rank of the adapter.
    pub fn rank(&self) -> (r: usize)
        ensures
            r == self.adapter_rank(),
    {
        self.rank
    }
}

/// `a` and `b` are a placeholder pair of the sizes of `shape`: zeros all
/// through, `a` of `rank` by `vocab_size`, `b` of `hidden_size` by `rank`.
pub open spec fn is_dummy_pair(a: Tensor, b: Tensor, shape: DummyShape) -> bool {
    &&& tensor_dims(a) == seq![shape.adapter_rank(), shape.vocab()]
    &&& tensor_dims(b) == seq![shape.hidden(), shape.adapter_rank()]
    &&& tensor_is_zeroed(a)
    &&& tensor_is_zeroed(b)
}

} // verus!
