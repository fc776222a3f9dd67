use vstd::prelude::*;

verus! {

/// Ways in which the dimensions handed to a filter can be unusable.
#[derive(Debug, Clone, Copy, PartialEq, Eq, Structural)]
pub enum RlsError {
    /// The filter length is so large that its `n × n` matrix cannot be indexed.
    TooLarge,
    /// A vector or matrix does not have the length the filter was built with.
    DimensionMismatch { expected: usize, found: usize },
}

} // verus!
