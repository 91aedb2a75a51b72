use vstd::prelude::*;

verus! {

/// A handle into the parallel link arrays.
///
/// All structure in the sparse matrix is expressed as array positions, never
/// as owning pointers, which keeps the circular lists free of ownership
/// cycles. Equality of handles is equality of positions.
#[derive(Debug, Copy, Clone, PartialEq, Eq, Structural)]
pub struct Cell(pub usize);

} // verus!
