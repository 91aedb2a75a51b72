use crate::cell::Cell;
use vstd::prelude::*;

verus! {

/// One node's neighbours in a single circular list.
#[derive(Debug, Copy, Clone, PartialEq, Eq, Structural)]
pub struct Link {
    pub prev: Cell,
    pub next: Cell,
}

impl Link {
    /// A freshly allocated node is a singleton circular list: it is its own
    /// neighbour in both directions.
    pub fn new(cell: Cell) -> (r: Link)
        ensures
            r.prev == cell,
            r.next == cell,
    {
        Link { prev: cell, next: cell }
    }
}

} // verus!
