//! The mathematical content of a tensor or view: a shape and a flat row-major
//! sequence of cells.

use vstd::prelude::*;
use crate::layout::{
    in_bounds, lemma_offset_in_range, lemma_offset_injective, lemma_unflatten, offset, positive,
    product, unflatten,
};

verus! {

/// What a tensor or a view holds: its shape and its cells in row-major order.
pub struct TensorData<T> {
    pub shape: Seq<usize>,
    pub cells: Seq<T>,
}

impl<T> TensorData<T> {
    /// The shape has at least one dimension, every extent is positive, and
    /// there is exactly one cell per valid index.
    pub open spec fn wf(self) -> bool {
        &&& self.shape.len() >= 1
        &&& positive(self.shape)
        &&& self.cells.len() == product(self.shape)
    }

    /// A tensor of the given shape with every cell equal to `value`.
    pub open spec fn filled(shape: Seq<usize>, value: T) -> Self {
        TensorData { shape, cells: Seq::new(product(shape), |i: int| value) }
    }

    /// The cell that `index` addresses.
    pub open spec fn at(self, index: Seq<usize>) -> T {
        self.cells[offset(self.shape, index) as int]
    }

    /// The same tensor with the cell at `index` replaced by `value`.
    pub open spec fn write(self, index: Seq<usize>, value: T) -> Self {
        TensorData {
            shape: self.shape,
            cells: self.cells.update(offset(self.shape, index) as int, value),
        }
    }

    /// The same cells under another shape.
    pub open spec fn reshaped(self, shape: Seq<usize>) -> Self {
        TensorData { shape, cells: self.cells }
    }
}

/// A freshly filled tensor has one cell per valid index of its shape, and
/// every valid index reads the fill value.
pub proof fn lemma_filled_reads_value<T>(shape: Seq<usize>, value: T, index: Seq<usize>)
    requires
        in_bounds(shape, index),
    ensures
        TensorData::filled(shape, value).cells.len() == product(shape),
        TensorData::filled(shape, value).at(index) == value,
{
    lemma_offset_in_range(shape, index);
}

/// After a write, the written index reads the new value, every other valid
/// index reads what it read before, and the shape and the number of cells
/// are unchanged.
pub proof fn lemma_write_then_read<T>(
    data: TensorData<T>,
    index: Seq<usize>,
    value: T,
    probe: Seq<usize>,
)
    requires
        data.wf(),
        in_bounds(data.shape, index),
        in_bounds(data.shape, probe),
    ensures
        data.write(index, value).wf(),
        data.write(index, value).shape == data.shape,
        data.write(index, value).at(index) == value,
        probe != index ==> data.write(index, value).at(probe) == data.at(probe),
{
    lemma_offset_in_range(data.shape, index);
    lemma_offset_in_range(data.shape, probe);
    if probe != index && offset(data.shape, probe) == offset(data.shape, index) {
        lemma_offset_injective(data.shape, probe, index);
    }
}

/// Reshaping changes how cells are addressed, never what they hold. Under
/// the new shape a valid index reads the cell of the one valid index of the
/// old shape that has the same flat offset.
pub proof fn lemma_reshape_preserves_contents<T>(
    data: TensorData<T>,
    new_shape: Seq<usize>,
    new_index: Seq<usize>,
)
    requires
        data.wf(),
        product(new_shape) == product(data.shape),
        in_bounds(new_shape, new_index),
    ensures
        data.reshaped(new_shape).cells == data.cells,
        in_bounds(data.shape, unflatten(data.shape, offset(new_shape, new_index))),
        offset(data.shape, unflatten(data.shape, offset(new_shape, new_index))) == offset(
            new_shape,
            new_index,
        ),
        data.reshaped(new_shape).at(new_index) == data.at(
            unflatten(data.shape, offset(new_shape, new_index)),
        ),
        forall|other: Seq<usize>|
            in_bounds(data.shape, other) && #[trigger] offset(data.shape, other) == offset(
                new_shape,
                new_index,
            ) ==> other == unflatten(data.shape, offset(new_shape, new_index)),
{
    let position = offset(new_shape, new_index);
    let old_index = unflatten(data.shape, position);
    lemma_offset_in_range(new_shape, new_index);
    lemma_unflatten(data.shape, position);
    assert forall|other: Seq<usize>|
        in_bounds(data.shape, other) && #[trigger] offset(data.shape, other)
            == position implies other == old_index by {
        lemma_offset_injective(data.shape, other, old_index);
    }
}

/// A copy of a tensor is a value of its own. After a write to the source
/// the copy still reads what the source read before the write, so the two
/// differ at most in the written cell; and the same holds the other way
/// round after a write to the copy.
pub proof fn lemma_copy_is_independent<T>(
    source: TensorData<T>,
    copy: TensorData<T>,
    index: Seq<usize>,
    value: T,
    probe: Seq<usize>,
)
    requires
        source.wf(),
        copy == source,
        in_bounds(source.shape, index),
        in_bounds(source.shape, probe),
    ensures
        copy.at(probe) == source.at(probe),
        source.write(index, value).at(probe) == (if probe == index {
            value
        } else {
            copy.at(probe)
        }),
        copy.write(index, value).at(probe) == (if probe == index {
            value
        } else {
            source.at(probe)
        }),
{
    lemma_write_then_read(source, index, value, probe);
}

} // verus!
