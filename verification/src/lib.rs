//! A small row-major tensor: an owning `Tensor`, a shared `TensorView` and an
//! exclusive `MutTensorView` over one flat buffer, with zero-copy reshape.

pub mod error;
pub mod layout;
pub mod model;
pub mod tensor;
