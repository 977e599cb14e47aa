//! The two ways in which an operation on a tensor can be refused.

use vstd::prelude::*;

verus! {

/// Why an access or a reshape was refused.
#[derive(Debug, PartialEq, Eq)]
pub enum TensorError {
    /// Some component of `index` is not below the matching extent of `shape`.
    IndexOutOfBounds { index: Vec<usize>, shape: Vec<usize> },
    /// A reshape asked for `requested` cells over a buffer of `actual` cells.
    /// A request too large for `usize` is reported as `usize::MAX`.
    ShapeMismatch { requested: usize, actual: usize },
}

/// `count` as a `usize`, or `usize::MAX` when it is larger than that.
pub open spec fn saturated(count: nat) -> usize {
    if count <= usize::MAX {
        count as usize
    } else {
        usize::MAX
    }
}

impl TensorError {
    /// This error reports exactly the given index as lying outside the given shape.
    pub open spec fn is_index_out_of_bounds(self, index: Seq<usize>, shape: Seq<usize>) -> bool {
        self matches TensorError::IndexOutOfBounds { index: i, shape: s } && i@ == index && s@
            == shape
    }

    /// This error reports a request for `requested` cells over `actual` cells.
    pub open spec fn is_shape_mismatch(self, requested: nat, actual: nat) -> bool {
        self == (TensorError::ShapeMismatch {
            requested: saturated(requested),
            actual: saturated(actual),
        })
    }

    /// The error for an index that does not fit a shape.
    pub fn index_out_of_bounds<const DIM: usize>(index: &[usize; DIM], shape: &[usize; DIM]) -> (error:
        TensorError)
        ensures
            error.is_index_out_of_bounds(index@, shape@),
    {
        TensorError::IndexOutOfBounds { index: copy_to_vec(index), shape: copy_to_vec(shape) }
    }
}

/// The components of `values`, in order, as a vector.
fn copy_to_vec<const DIM: usize>(values: &[usize; DIM]) -> (copy: Vec<usize>)
    ensures
        copy@ == values@,
{
    let mut copy: Vec<usize> = Vec::new();
    let mut i: usize = 0;
    while i < DIM
        invariant
            i <= DIM,
            copy@ == values@.take(i as int),
        decreases DIM - i,
    {
        copy.push(values[i]);
        assert(values@.take(i + 1) == values@.take(i as int).push(values@[i as int]));
        i += 1;
    }
    assert(values@.take(DIM as int) == values@);
    copy
}

} // verus!
