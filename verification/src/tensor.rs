//! The owning tensor and its two borrowing views.
//!
//! A `Tensor` owns a flat buffer together with a shape and the row-major
//! strides derived from it. A `TensorView` borrows the buffer for reading, a
//! `MutTensorView` borrows it exclusively for reading and writing. Each view
//! carries a shape and strides of its own, so a view can be reshaped without
//! touching the buffer or the tensor it came from.

use vstd::prelude::*;
use std::ops::{Index, IndexMut};
use crate::error::TensorError;
use crate::layout::{
    calculate_position, calculate_strides, checked_product, dot, in_bounds, index_in_bounds,
    is_row_major, lemma_dot_is_offset, lemma_nonzero_product_is_positive, lemma_offset_in_range,
    lemma_product_positive, lemma_strides_fit, offset, positive, product,
};
use crate::model::TensorData;

verus! {

/// Flat storage of the cells of a tensor, with their count.
#[derive(Debug)]
pub struct InnerBuffer<T: Copy + Clone> {
    buffer: Vec<T>,
    size: usize,
}

impl<T: Copy + Clone> View for InnerBuffer<T> {
    type V = Seq<T>;

    closed spec fn view(&self) -> Seq<T> {
        self.buffer@
    }
}

impl<T: Copy + Clone> InnerBuffer<T> {
    /// The recorded count is the number of cells held.
    pub closed spec fn wf(&self) -> bool {
        self.size == self.buffer@.len()
    }

    /// A buffer of `size` cells, each equal to `val`.
    fn filled(size: usize, val: T) -> (buffer: Self)
        ensures
            buffer.wf(),
            buffer@ == Seq::new(size as nat, |i: int| val),
    {
        let mut cells: Vec<T> = Vec::with_capacity(size);
        let mut i: usize = 0;
        while i < size
            invariant
                i <= size,
                cells@ == Seq::new(i as nat, |j: int| val),
            decreases size - i,
        {
            cells.push(val);
            i += 1;
        }
        InnerBuffer { buffer: cells, size }
    }
}

impl<T: Copy + Clone> Clone for InnerBuffer<T> {
    /// A second buffer with the same cells.
    fn clone(&self) -> (copy: Self)
        ensures
            copy@ == self@,
            self.wf() ==> copy.wf(),
    {
        let mut cells: Vec<T> = Vec::with_capacity(self.buffer.len());
        let mut i: usize = 0;
        while i < self.buffer.len()
            invariant
                i <= self.buffer@.len(),
                cells@ == self.buffer@.take(i as int),
            decreases self.buffer@.len() - i,
        {
            cells.push(self.buffer[i]);
            assert(self.buffer@.take(i + 1) == self.buffer@.take(i as int).push(
                self.buffer@[i as int],
            ));
            i += 1;
        }
        assert(self.buffer@.take(self.buffer@.len() as int) == self.buffer@);
        InnerBuffer { buffer: cells, size: self.size }
    }
}

impl<T: Copy + Clone> Default for InnerBuffer<T> {
    /// The buffer without cells.
    fn default() -> (buffer: Self)
        ensures
            buffer.wf(),
            buffer@ == Seq::<T>::empty(),
    {
        InnerBuffer { buffer: Vec::new(), size: 0 }
    }
}

/// A valid index of a shape, weighted by that shape's row-major strides,
/// addresses a cell of a buffer with one cell per index.
proof fn lemma_position_in_buffer(strides: Seq<usize>, shape: Seq<usize>, index: Seq<usize>)
    requires
        is_row_major(strides, shape),
        in_bounds(shape, index),
    ensures
        dot(strides, index) == offset(shape, index),
        offset(shape, index) < product(shape),
{
    lemma_dot_is_offset(strides, shape, index);
    lemma_offset_in_range(shape, index);
}

/// Row-major strides for looking at a buffer of `actual` cells under
/// `new_shape`, or the mismatch between the two cell counts.
fn strides_for_reshape<const NDIM: usize>(actual: usize, new_shape: &[usize; NDIM]) -> (outcome:
    Result<[usize; NDIM], TensorError>)
    requires
        actual >= 1,
    ensures
        (match outcome {
            Ok(strides) => {
                &&& product(new_shape@) == actual
                &&& positive(new_shape@)
                &&& is_row_major(strides@, new_shape@)
            },
            Err(error) => {
                &&& product(new_shape@) != actual
                &&& error.is_shape_mismatch(product(new_shape@), actual as nat)
            },
        }),
{
    match checked_product(new_shape) {
        Some(requested) => {
            if requested != actual {
                return Err(TensorError::ShapeMismatch { requested, actual });
            }
        },
        None => {
            return Err(TensorError::ShapeMismatch { requested: usize::MAX, actual });
        },
    }
    proof {
        lemma_nonzero_product_is_positive(new_shape@);
        lemma_strides_fit(new_shape@);
    }
    Ok(calculate_strides(new_shape))
}

/// An owning tensor of rank `DIM`.
pub struct Tensor<T: Copy + Clone, const DIM: usize> {
    buffer: InnerBuffer<T>,
    strides: [usize; DIM],
    shape: [usize; DIM],
}

impl<T: Copy + Clone, const DIM: usize> View for Tensor<T, DIM> {
    type V = TensorData<T>;

    closed spec fn view(&self) -> TensorData<T> {
        TensorData { shape: self.shape@, cells: self.buffer@ }
    }
}

impl<T: Copy + Clone, const DIM: usize> Tensor<T, DIM> {
    /// The stored strides are the row-major strides of the shape, and the
    /// buffer's recorded count is its length.
    pub closed spec fn consistent(&self) -> bool {
        &&& self.buffer.wf()
        &&& is_row_major(self.strides@, self.shape@)
    }

    /// The tensor holds one cell per valid index of a shape of `DIM`
    /// positive extents, and its derived fields agree with that shape.
    pub open spec fn wf(&self) -> bool {
        &&& self@.wf()
        &&& self@.shape.len() == DIM
        &&& self.consistent()
    }

    /// A tensor of the given shape with every cell equal to `val`.
    pub fn new(shape: [usize; DIM], val: T) -> (tensor: Self)
        requires
            DIM >= 1,
            positive(shape@),
            product(shape@) <= usize::MAX,
        ensures
            tensor.wf(),
            tensor@ == TensorData::filled(shape@, val),
            forall|index: Seq<usize>|
                in_bounds(shape@, index) ==> #[trigger] tensor@.at(index) == val,
    {
        let size = checked_product(&shape).unwrap();
        proof {
            lemma_strides_fit(shape@);
            let filled = TensorData::filled(shape@, val);
            assert forall|index: Seq<usize>| in_bounds(shape@, index) implies #[trigger] filled.at(
                index,
            ) == val by {
                lemma_offset_in_range(shape@, index);
            }
        }
        let strides = calculate_strides(&shape);
        Tensor { buffer: InnerBuffer::filled(size, val), strides, shape }
    }

    /// A read-only view of this tensor, with the tensor's shape.
    pub fn as_shared(&self) -> (view: TensorView<'_, T, DIM>)
        ensures
            view@ == self@,
            self.wf() ==> view.wf(),
    {
        TensorView { reference: &self.buffer, strides: self.strides, shape: self.shape }
    }

    /// An exclusive view of this tensor, with the tensor's shape. What the
    /// view's buffer holds when the view is given up is what the tensor
    /// holds from then on.
    pub fn as_unique(&mut self) -> (view: MutTensorView<'_, T, DIM>)
        ensures
            view@ == old(self)@,
            old(self).wf() ==> view.wf(),
            final(self)@ == (TensorData { shape: old(self)@.shape, cells: final(view.target())@ }),
            old(self).wf() ==> (final(self).wf() <==> final(view.target()).wf()
                && final(view.target())@.len() == old(self)@.cells.len()),
    {
        MutTensorView { reference: &mut self.buffer, strides: self.strides, shape: self.shape }
    }

    /// The cell at `index`, or the reason why there is none.
    pub fn get(&self, index: [usize; DIM]) -> (cell: Result<T, TensorError>)
        requires
            self.wf(),
        ensures
            (match cell {
                Ok(value) => in_bounds(self@.shape, index@) && value == self@.at(index@),
                Err(error) => {
                    &&& !in_bounds(self@.shape, index@)
                    &&& error.is_index_out_of_bounds(index@, self@.shape)
                },
            }),
    {
        if !index_in_bounds(&self.shape, &index) {
            return Err(TensorError::index_out_of_bounds(&index, &self.shape));
        }
        Ok(self[index])
    }

    /// Stores `value` in the cell at `index`, or says why there is no such
    /// cell and leaves the tensor as it was.
    pub fn set(&mut self, index: [usize; DIM], value: T) -> (done: Result<(), TensorError>)
        requires
            old(self).wf(),
        ensures
            final(self).wf(),
            (match done {
                Ok(_) => {
                    &&& in_bounds(old(self)@.shape, index@)
                    &&& final(self)@ == old(self)@.write(index@, value)
                },
                Err(error) => {
                    &&& !in_bounds(old(self)@.shape, index@)
                    &&& error.is_index_out_of_bounds(index@, old(self)@.shape)
                    &&& final(self)@ == old(self)@
                },
            }),
    {
        if !index_in_bounds(&self.shape, &index) {
            return Err(TensorError::index_out_of_bounds(&index, &self.shape));
        }
        *self.index_mut(index) = value;
        Ok(())
    }
}

impl<T: Copy + Clone, const DIM: usize> Index<[usize; DIM]> for Tensor<T, DIM> {
    type Output = T;

    /// The cell at a valid index. Where the index is not known to be
    /// valid, `get` tests it first.
    fn index(&self, index: [usize; DIM]) -> (cell: &T)
        ensures
            *cell == self@.at(index@),
    {
        proof {
            lemma_position_in_buffer(self.strides@, self.shape@, index@);
        }
        let pos = calculate_position(&self.strides, &index);
        &self.buffer.buffer[pos]
    }
}

impl<T: Copy + Clone, const DIM: usize> vstd::std_specs::core::IndexSpecImpl<[usize; DIM]> for Tensor<T, DIM> {
    open spec fn index_req(&self, index: &[usize; DIM]) -> bool {
        self.wf() && in_bounds(self@.shape, index@)
    }
}

impl<T: Copy + Clone, const DIM: usize> IndexMut<[usize; DIM]> for Tensor<T, DIM> {
    /// The cell at a valid index, for writing. The tensor ends up with
    /// whatever is left in that cell and is otherwise unchanged.
    fn index_mut(&mut self, index: [usize; DIM]) -> (cell: &mut T)
        requires
            old(self).wf(),
            in_bounds(old(self)@.shape, index@),
        ensures
            *cell == old(self)@.at(index@),
            final(self)@ == old(self)@.write(index@, *final(cell)),
            final(self).wf(),
    {
        proof {
            lemma_position_in_buffer(self.strides@, self.shape@, index@);
        }
        let pos = calculate_position(&self.strides, &index);
        &mut self.buffer.buffer[pos]
    }
}

/// A read-only view of rank `DIM` over the buffer of a tensor.
pub struct TensorView<'a, T: Copy + Clone, const DIM: usize> {
    reference: &'a InnerBuffer<T>,
    strides: [usize; DIM],
    shape: [usize; DIM],
}

impl<'a, T: Copy + Clone, const DIM: usize> View for TensorView<'a, T, DIM> {
    type V = TensorData<T>;

    closed spec fn view(&self) -> TensorData<T> {
        TensorData { shape: self.shape@, cells: self.reference@ }
    }
}

impl<'a, T: Copy + Clone, const DIM: usize> Clone for TensorView<'a, T, DIM> {
    /// A second view of the same buffer under the same shape.
    fn clone(&self) -> (copy: Self)
        ensures
            copy == *self,
    {
        TensorView { reference: self.reference, strides: self.strides, shape: self.shape }
    }
}

impl<'a, T: Copy + Clone, const DIM: usize> TensorView<'a, T, DIM> {
    /// The stored strides are the row-major strides of the view's shape, and
    /// the buffer's recorded count is its length.
    pub closed spec fn consistent(&self) -> bool {
        &&& self.reference.wf()
        &&& is_row_major(self.strides@, self.shape@)
    }

    /// The view shows one cell per valid index of a shape of `DIM` positive
    /// extents, and its derived fields agree with that shape.
    pub open spec fn wf(&self) -> bool {
        &&& self@.wf()
        &&& self@.shape.len() == DIM
        &&& self.consistent()
    }

    /// A new tensor with this view's shape and a copy of the cells it shows.
    pub fn to_owned(&self) -> (owned: Tensor<T, DIM>)
        ensures
            owned@ == self@,
            self.wf() ==> owned.wf(),
    {
        Tensor { buffer: self.reference.clone(), strides: self.strides, shape: self.shape }
    }

    /// The same buffer seen under `new_shape`, which must address exactly as
    /// many cells as the buffer holds. The rank may change.
    pub fn reshape<const NDIM: usize>(self, new_shape: [usize; NDIM]) -> (reshaped: Result<
        TensorView<'a, T, NDIM>,
        TensorError,
    >)
        requires
            self.wf(),
            NDIM >= 1,
        ensures
            (match reshaped {
                Ok(view) => {
                    &&& product(new_shape@) == self@.cells.len()
                    &&& view.wf()
                    &&& view@ == self@.reshaped(new_shape@)
                },
                Err(error) => {
                    &&& product(new_shape@) != self@.cells.len()
                    &&& error.is_shape_mismatch(product(new_shape@), self@.cells.len())
                },
            }),
    {
        proof {
            lemma_product_positive(self.shape@, 0);
        }
        match strides_for_reshape(self.reference.size, &new_shape) {
            Ok(strides) => Ok(TensorView { reference: self.reference, strides, shape: new_shape }),
            Err(error) => Err(error),
        }
    }

    /// The cell at `index`, or the reason why there is none.
    pub fn get(&self, index: [usize; DIM]) -> (cell: Result<T, TensorError>)
        requires
            self.wf(),
        ensures
            (match cell {
                Ok(value) => in_bounds(self@.shape, index@) && value == self@.at(index@),
                Err(error) => {
                    &&& !in_bounds(self@.shape, index@)
                    &&& error.is_index_out_of_bounds(index@, self@.shape)
                },
            }),
    {
        if !index_in_bounds(&self.shape, &index) {
            return Err(TensorError::index_out_of_bounds(&index, &self.shape));
        }
        Ok(self[index])
    }
}

impl<'a, T: Copy + Clone, const DIM: usize> Index<[usize; DIM]> for TensorView<'a, T, DIM> {
    type Output = T;

    /// The cell at a valid index. Where the index is not known to be
    /// valid, `get` tests it first.
    fn index(&self, index: [usize; DIM]) -> (cell: &T)
        ensures
            *cell == self@.at(index@),
    {
        proof {
            lemma_position_in_buffer(self.strides@, self.shape@, index@);
        }
        let pos = calculate_position(&self.strides, &index);
        &self.reference.buffer[pos]
    }
}

impl<'a, T: Copy + Clone, const DIM: usize> vstd::std_specs::core::IndexSpecImpl<[usize; DIM]> for TensorView<'a, T, DIM> {
    open spec fn index_req(&self, index: &[usize; DIM]) -> bool {
        self.wf() && in_bounds(self@.shape, index@)
    }
}

/// An exclusive view of rank `DIM` over the buffer of a tensor.
pub struct MutTensorView<'a, T: Copy + Clone, const DIM: usize> {
    reference: &'a mut InnerBuffer<T>,
    strides: [usize; DIM],
    shape: [usize; DIM],
}

impl<'a, T: Copy + Clone, const DIM: usize> View for MutTensorView<'a, T, DIM> {
    type V = TensorData<T>;

    open spec fn view(&self) -> TensorData<T> {
        TensorData { shape: self.dims(), cells: self.target()@ }
    }
}

impl<'a, T: Copy + Clone, const DIM: usize> MutTensorView<'a, T, DIM> {
    /// The borrow of the buffer that this view writes through. Its value
    /// when the borrow ends is what the lending tensor holds afterwards.
    pub closed spec fn target(&self) -> &'a mut InnerBuffer<T> {
        self.reference
    }

    /// The view's shape.
    pub closed spec fn dims(&self) -> Seq<usize> {
        self.shape@
    }

    /// The stored strides are the row-major strides of the view's shape.
    pub closed spec fn consistent(&self) -> bool {
        is_row_major(self.strides@, self.shape@)
    }

    /// The view shows one cell per valid index of a shape of `DIM` positive
    /// extents, and its derived fields agree with that shape.
    pub open spec fn wf(&self) -> bool {
        &&& self@.wf()
        &&& self@.shape.len() == DIM
        &&& self.target().wf()
        &&& self.consistent()
    }

    /// Once a view is no longer used, the buffer it borrowed stays as the
    /// view last showed it. With `broadcast use MutTensorView::lemma_given_up;`
    /// in scope this is applied wherever a view goes out of use.
    pub broadcast proof fn lemma_given_up(&self)
        requires
            #[trigger] has_resolved(*self),
        ensures
            *final(self.target()) == *self.target(),
    {
    }

    /// A new tensor with this view's shape and a copy of the cells it shows.
    /// The view itself is left as it was.
    pub fn to_owned(&mut self) -> (owned: Tensor<T, DIM>)
        ensures
            owned@ == old(self)@,
            old(self).wf() ==> owned.wf(),
            *final(self) == *old(self),
    {
        Tensor { buffer: self.reference.clone(), strides: self.strides, shape: self.shape }
    }

    /// The same borrowed buffer seen under `new_shape`, which must address
    /// exactly as many cells as the buffer holds. The rank may change. When
    /// the shape is refused, the borrow ends with the buffer as it was.
    pub fn reshape<const NDIM: usize>(self, new_shape: [usize; NDIM]) -> (reshaped: Result<
        MutTensorView<'a, T, NDIM>,
        TensorError,
    >)
        requires
            self.wf(),
            NDIM >= 1,
        ensures
            (match reshaped {
                Ok(view) => {
                    &&& product(new_shape@) == self@.cells.len()
                    &&& view.wf()
                    &&& view@ == self@.reshaped(new_shape@)
                    &&& *final(view.target()) == *final(self.target())
                },
                Err(error) => {
                    &&& product(new_shape@) != self@.cells.len()
                    &&& error.is_shape_mismatch(product(new_shape@), self@.cells.len())
                    &&& *final(self.target()) == *self.target()
                },
            }),
    {
        proof {
            lemma_product_positive(self.shape@, 0);
        }
        match strides_for_reshape(self.reference.size, &new_shape) {
            Ok(strides) => Ok(
                MutTensorView { reference: self.reference, strides, shape: new_shape },
            ),
            Err(error) => Err(error),
        }
    }

    /// The cell at `index`, or the reason why there is none.
    pub fn get(&self, index: [usize; DIM]) -> (cell: Result<T, TensorError>)
        requires
            self.wf(),
        ensures
            (match cell {
                Ok(value) => in_bounds(self@.shape, index@) && value == self@.at(index@),
                Err(error) => {
                    &&& !in_bounds(self@.shape, index@)
                    &&& error.is_index_out_of_bounds(index@, self@.shape)
                },
            }),
    {
        if !index_in_bounds(&self.shape, &index) {
            return Err(TensorError::index_out_of_bounds(&index, &self.shape));
        }
        Ok(self[index])
    }

    /// Stores `value` in the cell at `index`, or says why there is no such
    /// cell and leaves the buffer as it was.
    pub fn set(&mut self, index: [usize; DIM], value: T) -> (done: Result<(), TensorError>)
        requires
            old(self).wf(),
        ensures
            final(self).wf(),
            *final(final(self).target()) == *final(old(self).target()),
            (match done {
                Ok(_) => {
                    &&& in_bounds(old(self)@.shape, index@)
                    &&& final(self)@ == old(self)@.write(index@, value)
                },
                Err(error) => {
                    &&& !in_bounds(old(self)@.shape, index@)
                    &&& error.is_index_out_of_bounds(index@, old(self)@.shape)
                    &&& final(self)@ == old(self)@
                },
            }),
    {
        if !index_in_bounds(&self.shape, &index) {
            return Err(TensorError::index_out_of_bounds(&index, &self.shape));
        }
        *self.index_mut(index) = value;
        Ok(())
    }
}

impl<'a, T: Copy + Clone, const DIM: usize> Index<[usize; DIM]> for MutTensorView<'a, T, DIM> {
    type Output = T;

    /// The cell at a valid index. Where the index is not known to be
    /// valid, `get` tests it first.
    fn index(&self, index: [usize; DIM]) -> (cell: &T)
        ensures
            *cell == self@.at(index@),
    {
        proof {
            lemma_position_in_buffer(self.strides@, self.shape@, index@);
        }
        let pos = calculate_position(&self.strides, &index);
        &self.reference.buffer[pos]
    }
}

impl<'a, T: Copy + Clone, const DIM: usize> vstd::std_specs::core::IndexSpecImpl<[usize; DIM]> for MutTensorView<'a, T, DIM> {
    open spec fn index_req(&self, index: &[usize; DIM]) -> bool {
        self.wf() && in_bounds(self@.shape, index@)
    }
}

impl<'a, T: Copy + Clone, const DIM: usize> IndexMut<[usize; DIM]> for MutTensorView<'a, T, DIM> {
    /// The cell at a valid index, for writing. The view ends up showing
    /// whatever is left in that cell and is otherwise unchanged.
    fn index_mut(&mut self, index: [usize; DIM]) -> (cell: &mut T)
        requires
            old(self).wf(),
            in_bounds(old(self)@.shape, index@),
        ensures
            *cell == old(self)@.at(index@),
            final(self)@ == old(self)@.write(index@, *final(cell)),
            final(self).wf(),
            *final(final(self).target()) == *final(old(self).target()),
    {
        proof {
            lemma_position_in_buffer(self.strides@, self.shape@, index@);
        }
        let pos = calculate_position(&self.strides, &index);
        &mut self.reference.buffer[pos]
    }
}

} // verus!
