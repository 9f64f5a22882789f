//! The error taxonomy: a single recoverable error kind raised by validated
//! tensor construction.

use vstd::prelude::*;

verus! {

/// The error returned by fallible tensor constructors.
#[derive(Debug, PartialEq, Eq)]
pub enum TensorError {
    /// A mismatch between a flat buffer's length and the element count that a
    /// shape demands, or between the lengths of nested literal rows. Carries a
    /// message describing both quantities.
    ShapeError(String),
}

impl TensorError {
    /// The error rendered as text: `"ShapeError: "` followed by the message.
    pub fn message(&self) -> (s: String)
        ensures
            (match self {
                TensorError::ShapeError(m) => s@ == "ShapeError: "@ + m@,
            }),
    {
        match self {
            TensorError::ShapeError(m) => {
                let mut s = String::from_str("ShapeError: ");
                s.append(m.as_str());
                s
            },
        }
    }
}

} // verus!
