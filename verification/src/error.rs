use vstd::prelude::*;
use crate::tensor::CandleError;

verus! {

/// Why building or running a network failed.
pub enum NetError {
    /// The tensor backend reported an error (missing weights, a shape or
    /// dtype mismatch inside an operation, ...).
    Candle(CandleError),
    /// The weight loader answered a request with a layer of another kind, or
    /// with one whose shape or configuration differs from the request.
    LayerMismatch,
}

} // verus!
