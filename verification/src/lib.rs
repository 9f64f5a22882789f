//! A minimal N-dimensional array (tensor) value type.
//!
//! A [`tensor::Tensor`] is a contiguous flat buffer together with a shape and
//! derived row-major strides. Construction is validated: the buffer's length
//! must equal the product of the shape's dimensions. The crate offers a
//! zero-filling factory and nested-literal builders in [`creation`], and a
//! recursive pretty-printer on the tensor itself.

pub mod creation;
pub mod error;
pub mod tensor;
pub mod text;
