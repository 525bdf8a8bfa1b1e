//! An N-dimensional strided tensor library with shared-buffer views.
//!
//! A [`tensor::Tensor`] is a typed view over a flat, reference-counted
//! element buffer, described by a [`tensor_shape::TensorShape`] that maps
//! multi-dimensional indices to buffer positions in row-major order.
//! Nested sub-tensors alias the parent's buffer without copying; in-place
//! mutation is only permitted while a tensor is the sole holder of its
//! buffer, and fails with an error otherwise.

pub mod common;
pub mod dimensions;
pub mod errors;
pub mod tensor;
pub mod tensor_construct;
pub mod tensor_shape;
