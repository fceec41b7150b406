use vstd::prelude::*;

verus! {

/// Typed failures of the clustering and transfer operations.
#[derive(Debug, Clone, Copy, PartialEq, Eq, Structural)]
pub enum TransferError {
    /// Parallel arrays disagree in length or shape, or a cluster count is zero.
    ShapeMismatch,
    /// Clustering was asked to summarise zero points.
    EmptyInput,
}

} // verus!
