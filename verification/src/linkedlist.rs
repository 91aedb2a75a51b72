pub mod cursor;
pub mod link;

use crate::cell::Cell;
use crate::linkedlist::cursor::Cursor;
use crate::linkedlist::link::Link;
use vstd::prelude::*;

verus! {

/// Every stored link points inside the backing array.
pub open spec fn valid_links(s: Seq<Link>) -> bool {
    forall|j: int|
        0 <= j < s.len() ==> (#[trigger] s[j]).prev.0 < s.len() && s[j].next.0 < s.len()
}

/// The link array after `remove(b)`: `b`'s neighbours are bridged past `b`,
/// one field write at a time, while `b`'s own fields are left untouched.
pub open spec fn remove_links(s: Seq<Link>, b: Cell) -> Seq<Link>
    recommends
        b.0 < s.len(),
        valid_links(s),
{
    let a = s[b.0 as int].prev;
    let c = s[b.0 as int].next;
    let s1 = s.update(a.0 as int, Link { prev: s[a.0 as int].prev, next: c });
    s1.update(c.0 as int, Link { prev: a, next: s1[c.0 as int].next })
}

/// The link array after `restore(b)`: `b`'s neighbours, read from `b`'s own
/// still-intact fields, are pointed back at `b`.
pub open spec fn restore_links(s: Seq<Link>, b: Cell) -> Seq<Link>
    recommends
        b.0 < s.len(),
        valid_links(s),
{
    let a = s[b.0 as int].prev;
    let c = s[b.0 as int].next;
    let s1 = s.update(a.0 as int, Link { prev: s[a.0 as int].prev, next: b });
    s1.update(c.0 as int, Link { prev: b, next: s1[c.0 as int].next })
}

/// The link array after `insert(a, b)`: `b` is spliced immediately after `a`.
pub open spec fn insert_links(s: Seq<Link>, a: Cell, b: Cell) -> Seq<Link>
    recommends
        a.0 < s.len(),
        b.0 < s.len(),
        valid_links(s),
{
    let c = s[a.0 as int].next;
    let s1 = s.update(b.0 as int, Link { prev: a, next: c });
    let s2 = s1.update(a.0 as int, Link { prev: s1[a.0 as int].prev, next: b });
    s2.update(c.0 as int, Link { prev: b, next: s2[c.0 as int].next })
}

/// `b` sits properly in its circle: both neighbours point back at it.
pub open spec fn properly_linked(s: Seq<Link>, b: Cell) -> bool
    recommends
        b.0 < s.len(),
        valid_links(s),
{
    &&& s[s[b.0 as int].prev.0 as int].next == b
    &&& s[s[b.0 as int].next.0 as int].prev == b
}

/// The law the whole design rests on: removing a node and then restoring it,
/// with no intervening change to the affected entries, is the identity on the
/// link array. It holds because `remove` leaves the removed node's own fields
/// intact, so `restore` can read from them exactly which two writes to undo.
pub proof fn lemma_remove_then_restore(s: Seq<Link>, b: Cell)
    requires
        b.0 < s.len(),
        valid_links(s),
        properly_linked(s, b),
    ensures
        restore_links(remove_links(s, b), b) == s,
{
    assert(restore_links(remove_links(s, b), b) =~= s);
}

/// A set of circular doubly-linked lists sharing one backing array of links.
/// Disjoint lists coexist in the same array, distinguished only by which
/// handles are linked to which.
pub struct LinkedList {
    pub data: Vec<Link>,
}

impl LinkedList {
    pub fn with_capacity(capacity: usize) -> (r: LinkedList)
        ensures
            r.data@.len() == 0,
    {
        LinkedList { data: Vec::with_capacity(capacity) }
    }

    /// Allocates a new self-linked node: a singleton circular list.
    pub fn allocate(&mut self) -> (r: Cell)
        ensures
            r.0 == old(self).data@.len(),
            final(self).data@ == old(self).data@.push(Link { prev: r, next: r }),
    {
        let cell = Cell(self.data.len());
        self.data.push(Link::new(cell));
        cell
    }

    /// Splices `b` immediately after `a` in `a`'s list, rewriting exactly
    /// four link fields.
    pub fn insert(&mut self, a: Cell, b: Cell)
        requires
            a.0 < old(self).data@.len(),
            b.0 < old(self).data@.len(),
            old(self).data@[a.0 as int].next.0 < old(self).data@.len(),
        ensures
            final(self).data@ == insert_links(old(self).data@, a, b),
    {
        let c = self.data[a.0].next;

        let mut link_b = self.data[b.0];
        link_b.prev = a;
        link_b.next = c;
        self.data.set(b.0, link_b);

        let mut link_a = self.data[a.0];
        link_a.next = b;
        self.data.set(a.0, link_a);

        let mut link_c = self.data[c.0];
        link_c.prev = b;
        self.data.set(c.0, link_c);
    }

    /// Unlinks `b` by bridging its neighbours. `b`'s own fields are left
    /// untouched: a removed node still remembers where it used to sit, which
    /// is what makes `restore` possible.
    pub fn remove(&mut self, b: Cell)
        requires
            b.0 < old(self).data@.len(),
            old(self).data@[b.0 as int].prev.0 < old(self).data@.len(),
            old(self).data@[b.0 as int].next.0 < old(self).data@.len(),
        ensures
            final(self).data@ == remove_links(old(self).data@, b),
    {
        let a = self.data[b.0].prev;
        let c = self.data[b.0].next;

        let mut link_a = self.data[a.0];
        link_a.next = c;
        self.data.set(a.0, link_a);

        let mut link_c = self.data[c.0];
        link_c.prev = a;
        self.data.set(c.0, link_c);
    }

    /// The exact inverse of the most recent unmatched `remove(b)`: re-links
    /// the neighbours named by `b`'s still-intact fields back to `b`. Valid
    /// only in LIFO order relative to the removals that touched this region.
    pub fn restore(&mut self, b: Cell)
        requires
            b.0 < old(self).data@.len(),
            old(self).data@[b.0 as int].prev.0 < old(self).data@.len(),
            old(self).data@[b.0 as int].next.0 < old(self).data@.len(),
        ensures
            final(self).data@ == restore_links(old(self).data@, b),
    {
        let a = self.data[b.0].prev;
        let c = self.data[b.0].next;

        let mut link_a = self.data[a.0];
        link_a.next = b;
        self.data.set(a.0, link_a);

        let mut link_c = self.data[c.0];
        link_c.prev = b;
        self.data.set(c.0, link_c);
    }

    /// A traversal anchored at `head`, starting on `head` itself.
    pub fn cursor(&self, head: Cell) -> (r: Cursor)
        ensures
            r.head == head,
            r.current == head,
    {
        Cursor { head, current: head }
    }
}

} // verus!
