use vstd::prelude::*;

verus! {

/// Error returned by the matrix engine.
#[derive(Clone, Copy, Debug, PartialEq, Eq, Structural)]
pub enum MatrixError {
    /// The shapes of the two operands do not line up: the left operand's
    /// column count differs from the right operand's row count, or the two
    /// vectors of a dot product differ in length.
    DimensionMismatch,
}

/// Error returned by the metrics containers.
#[derive(Clone, Copy, Debug, PartialEq, Eq, Structural)]
pub enum MetricsError {
    /// The counter name is not one of the registered keys.
    KeyNotFound,
}

} // verus!
