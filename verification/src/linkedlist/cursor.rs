use crate::cell::Cell;
use crate::linkedlist::LinkedList;
use vstd::prelude::*;

verus! {

/// A forward/backward traversal over one circular list, anchored at `head`.
/// Each step dereferences a live link field of the position it sits on, so a
/// cursor stays usable while cells other than its own position are removed or
/// restored around it.
pub struct Cursor {
    pub head: Cell,
    pub current: Cell,
}

impl Cursor {
    /// Advances to the current node's `next` and returns it, or `None` when
    /// the walk has wrapped back to the anchor.
    pub fn next(&mut self, list: &LinkedList) -> (r: Option<Cell>)
        requires
            old(self).current.0 < list.data@.len(),
        ensures
            final(self).head == old(self).head,
            final(self).current == list.data@[old(self).current.0 as int].next,
            r == (if final(self).current == old(self).head {
                Option::<Cell>::None
            } else {
                Option::Some(final(self).current)
            }),
    {
        self.current = list.data[self.current.0].next;
        if self.current != self.head {
            Some(self.current)
        } else {
            None
        }
    }

    /// Advances to the current node's `prev` and returns it, or `None` when
    /// the walk has wrapped back to the anchor.
    pub fn prev(&mut self, list: &LinkedList) -> (r: Option<Cell>)
        requires
            old(self).current.0 < list.data@.len(),
        ensures
            final(self).head == old(self).head,
            final(self).current == list.data@[old(self).current.0 as int].prev,
            r == (if final(self).current == old(self).head {
                Option::<Cell>::None
            } else {
                Option::Some(final(self).current)
            }),
    {
        self.current = list.data[self.current.0].prev;
        if self.current != self.head {
            Some(self.current)
        } else {
            None
        }
    }
}

} // verus!
