use vstd::prelude::*;

verus! {

/// Why an operation of this library was refused.
#[derive(Debug, Clone, Copy, PartialEq, Eq, Structural)]
pub enum Error {
    /// Two vectors of different lengths, or a left matrix whose column count
    /// is not the right matrix's row count.
    DimensionMismatch,
    /// A buffer whose length is not the product of the row and column counts.
    ShapeMismatch,
    /// A reply that never arrived: the channel was closed before a result
    /// was sent on it.
    Internal,
}

} // verus!
