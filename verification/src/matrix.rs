use crate::cell::Cell;
use crate::linkedlist::link::Link;
use crate::linkedlist::insert_links;
use crate::linkedlist::lemma_remove_then_restore;
use crate::linkedlist::properly_linked;
use crate::linkedlist::remove_links;
use crate::linkedlist::restore_links;
use crate::linkedlist::valid_links;
use crate::linkedlist::LinkedList;
use vstd::prelude::*;

verus! {

/// Index of the permanent header sentinel, shared for a matrix's whole
/// lifetime. It anchors the list of active columns.
pub const H: usize = 0;

/// The first `k` entries of a link array form one circle in index order:
/// `0 -> 1 -> ... -> k-1 -> 0`, with `prev` pointing the other way.
pub open spec fn ring(s: Seq<Link>, k: int) -> bool
    recommends
        1 <= k <= s.len(),
{
    &&& forall|j: int| 0 <= j < k - 1 ==> (#[trigger] s[j]).next.0 == j + 1
    &&& forall|j: int| 1 <= j < k ==> (#[trigger] s[j]).prev.0 == j - 1
    &&& s[k - 1].next.0 == 0
    &&& s[0].prev.0 == k - 1
}

/// The column handles, in order, of the set positions of one row of bits:
/// bit `j` of the row belongs to column handle `j + 1` (handle 0 is the
/// header).
pub open spec fn row_columns(row: Seq<bool>) -> Seq<Cell>
    decreases row.len(),
{
    if row.len() == 0 {
        Seq::empty()
    } else if row.last() {
        row_columns(row.drop_last()).push(Cell(row.len() as usize))
    } else {
        row_columns(row.drop_last())
    }
}

/// A live-cell counter one higher, wrapping at the machine bound.
pub open spec fn counted_up(n: usize) -> usize {
    if n == usize::MAX {
        0
    } else {
        (n + 1) as usize
    }
}

/// A live-cell counter one lower, wrapping at zero. The exact inverse of
/// `counted_up` on every value, so covering and uncovering cancel on the
/// counters without any assumption on their current values.
pub open spec fn counted_down(n: usize) -> usize {
    if n == 0 {
        usize::MAX
    } else {
        (n - 1) as usize
    }
}

/// Every node of a link array is properly linked: both of its neighbours
/// point back at it.
pub open spec fn verticals_linked(s: Seq<Link>) -> bool {
    forall|a: int, b: int|
        0 <= a < s.len() && 0 <= b < s.len() ==> (((#[trigger] s[a]).next.0 == b ==> s[b].prev.0
            == a) && (s[a].prev.0 == b ==> (#[trigger] s[b]).next.0 == a))
}

/// Splicing a fresh self-linked node in just before `col` (at the bottom of
/// `col`'s circle) keeps every node properly linked, hangs the node between
/// the old bottom and `col`, and touches no other entry.
proof fn lemma_bottom_splice(s: Seq<Link>, col: Cell, cell: Cell)
    requires
        valid_links(s),
        verticals_linked(s),
        col.0 < s.len(),
        cell.0 == s.len(),
    ensures
        ({
            let bottom = s[col.0 as int].prev;
            let t = insert_links(s.push(Link { prev: cell, next: cell }), bottom, cell);
            &&& t.len() == s.len() + 1
            &&& valid_links(t)
            &&& verticals_linked(t)
            &&& t[col.0 as int].prev == cell
            &&& t[cell.0 as int].next == col
            &&& t[cell.0 as int].prev == bottom
            &&& t[bottom.0 as int].next == cell
            &&& forall|j: int|
                0 <= j < s.len() && j != col.0 && j != bottom.0 ==> t[j] == s[j]
        }),
{
    let bottom = s[col.0 as int].prev;
    let s1 = s.push(Link { prev: cell, next: cell });
    let t = insert_links(s1, bottom, cell);
    assert(s[bottom.0 as int].next.0 == col.0);
    assert forall|j: int| 0 <= j < t.len() implies (t[(#[trigger] t[j]).prev.0 as int].next.0 == j
        && t[t[j].next.0 as int].prev.0 == j) by {
        if j < s.len() {
            assert(s[s[j].prev.0 as int].next.0 == j);
            assert(s[s[j].next.0 as int].prev.0 == j);
            assert(s[s[bottom.0 as int].prev.0 as int].next.0 == bottom.0);
            assert(s[s[col.0 as int].next.0 as int].prev.0 == col.0);
        }
    }
}

/// The entries `base .. base + p` of a link array form one circle in index
/// order: the shape of a freshly appended row's cells in the column
/// direction.
pub open spec fn chained(s: Seq<Link>, base: int, p: int) -> bool {
    &&& forall|i: int| 0 <= i < p - 1 ==> (#[trigger] s[base + i]).next.0 == base + i + 1
    &&& forall|i: int| 1 <= i < p ==> (#[trigger] s[base + i]).prev.0 == base + i - 1
    &&& p > 0 ==> s[base + p - 1].next.0 == base && s[base].prev.0 == base + p - 1
}

/// What appending a row does for one set bit `k` of it, going from state
/// `pre` to state `post`: a fresh cell (its handle continues `pre`'s arena,
/// offset by the set bits before `k`) is recorded under column `k + 1` and
/// spliced in at the bottom of that column's vertical circle, between the
/// column's previous bottom and the column handle itself.
pub open spec fn row_bit_placed(pre: Matrix, post: Matrix, row: Seq<bool>, k: int) -> bool {
    let col = k + 1;
    let cellh = pre.x.data@.len() + row_columns(row.subrange(0, k)).len();
    let old_bottom = pre.y.data@[col].prev;
    &&& cellh < post.y.data@.len()
    &&& post.c@[cellh as int] == Cell((k + 1) as usize)
    &&& post.y.data@[col].prev.0 == cellh
    &&& post.y.data@[cellh as int].next.0 == col
    &&& post.y.data@[cellh as int].prev == old_bottom
    &&& post.y.data@[old_bottom.0 as int].next.0 == cellh
}

/// The net effect on the row-direction links and the counters of stripping
/// one row during a cover: walking the row circle of `r` forward through the
/// column-direction links `x` from position `j`, for at most `steps` more
/// cells, every cell met is removed from its owning column's vertical circle
/// and that column's counter steps down. `x` and the column table `ctab` are
/// only read; a cover never changes them past the header unlink.
pub open spec fn stripped_row(
    x: Seq<Link>,
    ctab: Seq<Cell>,
    r: Cell,
    j: Cell,
    steps: nat,
    y: Seq<Link>,
    size: Seq<usize>,
) -> (Seq<Link>, Seq<usize>)
    decreases steps,
{
    if steps == 0 {
        (y, size)
    } else {
        let nj = x[j.0 as int].next;
        if nj == r {
            (y, size)
        } else {
            let d = ctab[nj.0 as int].0 as int;
            stripped_row(
                x,
                ctab,
                r,
                nj,
                (steps - 1) as nat,
                remove_links(y, nj),
                size.update(d, counted_down(size[d])),
            )
        }
    }
}

/// The net effect of `cover(c)` past the header unlink: walking `c`'s
/// vertical circle forward from position `i`, for at most `steps` more rows,
/// every row met is stripped in turn. Each step reads the then-current links,
/// exactly as the traversal does.
pub open spec fn stripped_column(
    x: Seq<Link>,
    ctab: Seq<Cell>,
    c: Cell,
    i: Cell,
    steps: nat,
    y: Seq<Link>,
    size: Seq<usize>,
) -> (Seq<Link>, Seq<usize>)
    decreases steps,
{
    if steps == 0 {
        (y, size)
    } else {
        let ni = y[i.0 as int].next;
        if ni == c {
            (y, size)
        } else {
            let row = stripped_row(x, ctab, ni, ni, x.len(), y, size);
            stripped_column(x, ctab, c, ni, (steps - 1) as nat, row.0, row.1)
        }
    }
}

/// The net effect on the row-direction links and the counters of putting one
/// row back during an uncover: walking the row circle of `r` backward through
/// the column-direction links `x` from position `j`, for at most `steps` more
/// cells, every cell met has its column's counter stepped back up and is
/// restored into that column's vertical circle — the exact reverse, cell for
/// cell, of `stripped_row`'s forward walk.
pub open spec fn restored_row(
    x: Seq<Link>,
    ctab: Seq<Cell>,
    r: Cell,
    j: Cell,
    steps: nat,
    y: Seq<Link>,
    size: Seq<usize>,
) -> (Seq<Link>, Seq<usize>)
    decreases steps,
{
    if steps == 0 {
        (y, size)
    } else {
        let nj = x[j.0 as int].prev;
        if nj == r {
            (y, size)
        } else {
            let d = ctab[nj.0 as int].0 as int;
            restored_row(
                x,
                ctab,
                r,
                nj,
                (steps - 1) as nat,
                restore_links(y, nj),
                size.update(d, counted_up(size[d])),
            )
        }
    }
}

/// The net effect of `uncover(c)` before the header re-link: walking `c`'s
/// vertical circle backward from position `i`, for at most `steps` more rows,
/// every row met is put back in turn.
pub open spec fn restored_column(
    x: Seq<Link>,
    ctab: Seq<Cell>,
    c: Cell,
    i: Cell,
    steps: nat,
    y: Seq<Link>,
    size: Seq<usize>,
) -> (Seq<Link>, Seq<usize>)
    decreases steps,
{
    if steps == 0 {
        (y, size)
    } else {
        let ni = y[i.0 as int].prev;
        if ni == c {
            (y, size)
        } else {
            let row = restored_row(x, ctab, ni, ni, x.len(), y, size);
            restored_column(x, ctab, c, ni, (steps - 1) as nat, row.0, row.1)
        }
    }
}

/// The full effect of `cover(c)` on the three mutable arrays: the header
/// unlink on the column-direction links, then the stripping walk over the
/// row-direction links and the counters.
pub open spec fn covered(
    x: Seq<Link>,
    ctab: Seq<Cell>,
    y: Seq<Link>,
    size: Seq<usize>,
    c: Cell,
) -> (Seq<Link>, Seq<Link>, Seq<usize>) {
    let xr = remove_links(x, c);
    let st = stripped_column(xr, ctab, c, c, y.len(), y, size);
    (xr, st.0, st.1)
}

/// The full effect of `uncover(c)`: the restoring walk over the row-direction
/// links and the counters, then the header re-link.
pub open spec fn uncovered(
    x: Seq<Link>,
    ctab: Seq<Cell>,
    y: Seq<Link>,
    size: Seq<usize>,
    c: Cell,
) -> (Seq<Link>, Seq<Link>, Seq<usize>) {
    let st = restored_column(x, ctab, c, c, y.len(), y, size);
    (restore_links(x, c), st.0, st.1)
}

/// The toroidal sparse matrix: two circular-list directions over one handle
/// space, a column-of-cell table, and per-column live-cell counts.
pub struct Matrix {
    /// Column-direction links: the header's circle holds the active column
    /// handles; each row's cells form their own self-contained circle.
    pub x: LinkedList,
    /// Row-direction links: each column handle heads the circle of the data
    /// cells currently present in that column.
    pub y: LinkedList,
    /// For every handle, the column handle it belongs to (columns map to
    /// themselves).
    pub c: Vec<Cell>,
    /// Per-column live cell count, indexed by column handle.
    pub size: Vec<usize>,
}

impl Matrix {
    /// Structural well-formedness: the parallel arrays agree in length, every
    /// link stays inside the arrays, every cell's column is a column handle,
    /// column handles map to themselves, the column-direction links never
    /// cross between the column region (handles below `size` many) and the
    /// data region, and the row-direction links never leave the column class
    /// of the handle they start from. Constructors establish it and every
    /// operation preserves it, so no traversal or counter lookup can leave
    /// the arrays, and a vertical circle can never drift into another
    /// column.
    pub open spec fn wf(self) -> bool {
        &&& self.y.data@.len() == self.x.data@.len()
        &&& self.c@.len() == self.x.data@.len()
        &&& 1 <= self.size@.len() <= self.x.data@.len()
        &&& valid_links(self.x.data@)
        &&& valid_links(self.y.data@)
        &&& forall|j: int| 0 <= j < self.c@.len() ==> (#[trigger] self.c@[j]).0 < self.size@.len()
        &&& forall|j: int| 0 <= j < self.size@.len() ==> (#[trigger] self.c@[j]).0 == j
        &&& forall|j: int|
            0 <= j < self.x.data@.len() ==> (((#[trigger] self.x.data@[j]).next.0
                < self.size@.len()) <==> j < self.size@.len()) && ((self.x.data@[j].prev.0
                < self.size@.len()) <==> j < self.size@.len())
        &&& forall|j: int|
            0 <= j < self.y.data@.len() ==> self.c@[(#[trigger] self.y.data@[j]).next.0 as int]
                == self.c@[j] && self.c@[self.y.data@[j].prev.0 as int] == self.c@[j]
    }

    /// The header and the column handles still form their original circle in
    /// index order. This holds from construction until the first `cover`;
    /// rows may only be added while it holds.
    pub open spec fn columns_intact(self) -> bool {
        ring(self.x.data@, self.size@.len() as int)
    }

    /// Every handle is properly linked in the row direction: both of its
    /// vertical neighbours point back at it. This holds from construction
    /// until the first `cover` (covering deliberately breaks it for removed
    /// cells' neighbours), and `add_row` both needs and preserves it.
    pub open spec fn verticals_intact(self) -> bool {
        verticals_linked(self.y.data@)
    }

    /// A fresh matrix: the header plus `n_columns` column handles linked in
    /// one circle, every column empty.
    pub fn new(n_columns: usize) -> (r: Matrix)
        requires
            n_columns < usize::MAX,
        ensures
            r.wf(),
            r.columns_intact(),
            r.verticals_intact(),
            r.size@.len() == n_columns + 1,
            r.x.data@.len() == n_columns + 1,
            r.y.data@.len() == n_columns + 1,
            r.c@.len() == n_columns + 1,
            forall|j: int| 0 <= j <= n_columns ==> (#[trigger] r.size@[j]) == 0,
            forall|j: int|
                0 <= j <= n_columns ==> (#[trigger] r.y.data@[j]) == (Link {
                    prev: Cell(j as usize),
                    next: Cell(j as usize),
                }),
    {
        let mut result = Matrix {
            x: LinkedList::with_capacity(n_columns + 1),
            y: LinkedList::with_capacity(n_columns + 1),
            c: Vec::with_capacity(n_columns + 1),
            size: Vec::with_capacity(n_columns + 1),
        };
        let head = result.alloc_column();
        assert(head.0 == H);
        let mut added: usize = 0;
        while added < n_columns
            invariant
                added <= n_columns,
                n_columns < usize::MAX,
                result.x.data@.len() == added + 1,
                result.y.data@.len() == added + 1,
                result.c@.len() == added + 1,
                result.size@.len() == added + 1,
                ring(result.x.data@, added + 1),
                forall|j: int| 0 <= j <= added ==> (#[trigger] result.size@[j]) == 0,
                forall|j: int| 0 <= j <= added ==> (#[trigger] result.c@[j]).0 == j,
                forall|j: int|
                    0 <= j <= added ==> (#[trigger] result.y.data@[j]) == (Link {
                        prev: Cell(j as usize),
                        next: Cell(j as usize),
                    }),
            decreases n_columns - added,
        {
            result.add_column();
            added = added + 1;
        }
        proof {
            assert forall|j: int| 0 <= j < result.x.data@.len() implies (
            #[trigger] result.x.data@[j]).prev.0 < result.x.data@.len()
                && result.x.data@[j].next.0 < result.x.data@.len() by {
                let k = result.x.data@.len() as int;
                if j < k - 1 {
                    assert(result.x.data@[j].next.0 == j + 1);
                }
                if 1 <= j {
                    assert(result.x.data@[j].prev.0 == j - 1);
                }
            }
        }
        result
    }

    /// Extends the column circle by one fresh column handle, spliced in just
    /// before the header (that is, at the end of the circle).
    fn add_column(&mut self)
        requires
            old(self).x.data@.len() == old(self).y.data@.len(),
            old(self).x.data@.len() == old(self).c@.len(),
            old(self).x.data@.len() == old(self).size@.len(),
            1 <= old(self).size@.len(),
            ring(old(self).x.data@, old(self).size@.len() as int),
        ensures
            final(self).x.data@.len() == old(self).x.data@.len() + 1,
            final(self).x.data@.len() == final(self).y.data@.len(),
            final(self).x.data@.len() == final(self).c@.len(),
            final(self).x.data@.len() == final(self).size@.len(),
            final(self).y.data@ == old(self).y.data@.push(
                Link {
                    prev: Cell(old(self).y.data@.len() as usize),
                    next: Cell(old(self).y.data@.len() as usize),
                },
            ),
            final(self).c@ == old(self).c@.push(Cell(old(self).c@.len() as usize)),
            final(self).size@ == old(self).size@.push(0),
            ring(final(self).x.data@, final(self).size@.len() as int),
    {
        let ghost k = old(self).size@.len() as int;
        let column = self.alloc_column();
        let after = self.x.data[H].prev;
        assert(after.0 == k - 1);
        self.x.insert(after, column);
        proof {
            let s = final(self).x.data@;
            assert forall|j: int| 0 <= j < k implies (#[trigger] s[j]).next.0 == j + 1 by {}
            assert forall|j: int| 1 <= j < k + 1 implies (#[trigger] s[j]).prev.0 == j - 1 by {}
            assert(s[k].next.0 == 0);
            assert(s[0].prev.0 == k);
            assert(ring(s, k + 1));
        }
    }

    /// Allocates one handle that is a column: self-mapped in the column
    /// table, with a fresh zero counter.
    fn alloc_column(&mut self) -> (r: Cell)
        requires
            old(self).x.data@.len() == old(self).y.data@.len(),
            old(self).x.data@.len() == old(self).c@.len(),
            old(self).x.data@.len() == old(self).size@.len(),
        ensures
            r.0 == old(self).x.data@.len(),
            final(self).x.data@ == old(self).x.data@.push(Link { prev: r, next: r }),
            final(self).y.data@ == old(self).y.data@.push(Link { prev: r, next: r }),
            final(self).c@ == old(self).c@.push(r),
            final(self).size@ == old(self).size@.push(0),
    {
        let cell = self.allocate(Cell(H));
        self.c.set(cell.0, cell);
        self.size.push(0);
        proof {
            assert(final(self).c@ =~= old(self).c@.push(cell));
        }
        cell
    }

    /// Allocates one handle in both link directions at once, recording the
    /// column it belongs to. The two directions always stay in step.
    fn allocate(&mut self, column: Cell) -> (r: Cell)
        requires
            old(self).x.data@.len() == old(self).y.data@.len(),
            old(self).x.data@.len() == old(self).c@.len(),
        ensures
            r.0 == old(self).x.data@.len(),
            final(self).x.data@ == old(self).x.data@.push(Link { prev: r, next: r }),
            final(self).y.data@ == old(self).y.data@.push(Link { prev: r, next: r }),
            final(self).c@ == old(self).c@.push(column),
            final(self).size@ == old(self).size@,
    {
        self.c.push(column);
        let cell = self.x.allocate();
        let mirror = self.y.allocate();
        assert(mirror == cell);
        cell
    }

    /// Appends one row: for each set bit, a new cell is allocated, recorded
    /// under its column, counted, hung at the bottom of the column's vertical
    /// circle, and chained after the row's previously allocated cell. The row
    /// must be as wide as the matrix, and rows may only be added while the
    /// column circle is intact, before any covering.
    #[verifier::rlimit(50)]
    pub fn add_row(&mut self, row: &[bool])
        requires
            old(self).wf(),
            old(self).columns_intact(),
            old(self).verticals_intact(),
            row@.len() == old(self).size@.len() - 1,
        ensures
            final(self).wf(),
            final(self).columns_intact(),
            final(self).verticals_intact(),
            final(self).size@.len() == old(self).size@.len(),
            final(self).c@ == old(self).c@ + row_columns(row@),
            final(self).x.data@.len() == old(self).x.data@.len() + row_columns(row@).len(),
            final(self).y.data@.len() == old(self).y.data@.len() + row_columns(row@).len(),
            forall|j: int|
                0 <= j < final(self).size@.len() ==> (#[trigger] final(self).size@[j]) == (if 1
                    <= j && row@[j - 1] {
                    counted_up(old(self).size@[j])
                } else {
                    old(self).size@[j]
                }),
            forall|j: int|
                0 <= j < old(self).x.data@.len() ==> (#[trigger] final(self).x.data@[j])
                    == old(self).x.data@[j],
            chained(
                final(self).x.data@,
                old(self).x.data@.len() as int,
                row_columns(row@).len() as int,
            ),
            forall|k: int|
                0 <= k < row@.len() && row@[k] ==> #[trigger] row_bit_placed(
                    *old(self),
                    *final(self),
                    row@,
                    k,
                ),
            forall|j: int|
                0 <= j < old(self).y.data@.len() && (old(self).c@[j].0 == 0
                    || !row@[old(self).c@[j].0 - 1] || (j != old(self).c@[j].0
                    && j != old(self).y.data@[old(self).c@[j].0 as int].prev.0))
                    ==> (#[trigger] final(self).y.data@[j]) == old(self).y.data@[j],
    {
        let mut col = Cell(H);
        let mut prev: Option<Cell> = None;
        let mut k: usize = 0;
        while k < row.len()
            invariant
                old(self).wf(),
                self.wf(),
                self.columns_intact(),
                k <= row@.len(),
                row@.len() == old(self).size@.len() - 1,
                self.size@.len() == old(self).size@.len(),
                col.0 == k,
                self.c@ == old(self).c@ + row_columns(row@.subrange(0, k as int)),
                self.x.data@.len() == old(self).x.data@.len() + row_columns(
                    row@.subrange(0, k as int),
                ).len(),
                self.y.data@.len() == self.x.data@.len(),
                forall|j: int|
                    0 <= j < self.size@.len() ==> (#[trigger] self.size@[j]) == (if 1 <= j <= k
                        && row@[j - 1] {
                        counted_up(old(self).size@[j])
                    } else {
                        old(self).size@[j]
                    }),
                self.verticals_intact(),
                forall|j: int|
                    0 <= j < old(self).x.data@.len() ==> (#[trigger] self.x.data@[j])
                        == old(self).x.data@[j],
                forall|k2: int|
                    0 <= k2 < k && row@[k2] ==> #[trigger] row_bit_placed(
                        *old(self),
                        *self,
                        row@,
                        k2,
                    ),
                forall|j: int|
                    0 <= j < old(self).y.data@.len() && (old(self).c@[j].0 == 0
                        || !(old(self).c@[j].0 - 1 < k && row@[old(self).c@[j].0 - 1])
                        || (j != old(self).c@[j].0
                        && j != old(self).y.data@[old(self).c@[j].0 as int].prev.0))
                        ==> self.y.data@[j] == (#[trigger] old(self).y.data@[j]),
                chained(
                    self.x.data@,
                    old(self).x.data@.len() as int,
                    row_columns(row@.subrange(0, k as int)).len() as int,
                ),
                (match prev {
                    Option::Some(p) => row_columns(row@.subrange(0, k as int)).len() > 0 && p.0
                        == old(self).x.data@.len() + row_columns(
                        row@.subrange(0, k as int),
                    ).len() - 1,
                    Option::None => row_columns(row@.subrange(0, k as int)).len() == 0,
                }),
            decreases row@.len() - k,
        {
            let ghost snap = *self;
            col = self.x.data[col.0].next;
            assert(col.0 == k + 1);
            proof {
                assert(row@.subrange(0, k + 1 as int).drop_last() =~= row@.subrange(0, k as int));
            }
            if row[k] {
                let s = self.size[col.0];
                self.size.set(col.0, s.wrapping_add(1));
                let ghost y0 = self.y.data@;
                let cell = self.allocate(col);
                let bottom = self.y.data[col.0].prev;
                proof {
                    assert(bottom == snap.y.data@[col.0 as int].prev);
                    lemma_bottom_splice(y0, col, cell);
                }
                self.y.insert(bottom, cell);
                if let Some(p) = prev {
                    self.x.insert(p, cell);
                }
                prev = Some(cell);
                proof {
                    assert(self.y.data@ == insert_links(
                        y0.push(Link { prev: cell, next: cell }),
                        bottom,
                        cell,
                    ));
                    assert(snap.c@[bottom.0 as int] == snap.c@[col.0 as int]);
                    assert(row_bit_placed(*old(self), *self, row@, k as int)) by {
                        assert(snap.y.data@[col.0 as int] == old(self).y.data@[col.0 as int]);
                    }
                    assert forall|k2: int| 0 <= k2 < k && row@[k2] implies #[trigger] row_bit_placed(
                        *old(self),
                        *self,
                        row@,
                        k2,
                    ) by {
                        assert(row_bit_placed(*old(self), snap, row@, k2));
                        let col2 = k2 + 1;
                        let cellh2 = (old(self).x.data@.len() + row_columns(
                            row@.subrange(0, k2),
                        ).len()) as int;
                        let ob2 = old(self).y.data@[col2].prev.0 as int;
                        assert(ob2 < old(self).y.data@.len());
                        assert(snap.c@[col2].0 == col2);
                        assert(snap.c@[cellh2] == Cell((k2 + 1) as usize));
                        assert(snap.c@[ob2] == old(self).c@[ob2]);
                        assert(old(self).c@[ob2] == old(self).c@[col2]);
                        assert(snap.c@[bottom.0 as int].0 == col.0);
                        assert(col2 != col.0 && col2 != bottom.0 && col2 != cell.0);
                        assert(cellh2 != col.0 && cellh2 != bottom.0 && cellh2 != cell.0);
                        assert(ob2 != col.0 && ob2 != bottom.0 && ob2 != cell.0);
                    }
                    assert forall|k2: int|
                        0 <= k2 < row@.len() && !(k2 < k + 1 && #[trigger] row@[k2]) implies self.y.data@[k2
                        + 1] == old(self).y.data@[k2 + 1] by {
                        assert(snap.c@[k2 + 1].0 == k2 + 1);
                        assert(snap.c@[bottom.0 as int].0 == col.0);
                        assert(k2 + 1 != col.0 && k2 + 1 != bottom.0 && k2 + 1 < y0.len());
                        assert(self.y.data@[k2 + 1] == y0[k2 + 1]);
                        assert(!(k2 < k && row@[k2]));
                        assert(snap.y.data@ == y0);
                        assert(snap.y.data@[k2 + 1] == old(self).y.data@[k2 + 1]);
                    }
                }
            }
            k = k + 1;
        }
        proof {
            assert(row@.subrange(0, row@.len() as int) =~= row@);
        }
    }

    /// Covers column `c`: unlinks `c` from the header circle, then walks
    /// `c`'s vertical circle forward and, for every other cell of each of
    /// those rows, unlinks it from its own column's vertical circle and
    /// counts that column down. Column `c` and every row meeting it vanish
    /// from future consideration, while every removed cell keeps its own
    /// links for the matching `uncover`. A column whose vertical circle is
    /// empty loses nothing but its own place in the header circle.
    ///
    /// Each walk is bounded by the number of handles in the arena: a circle
    /// can hold each handle at most once, so on a well-formed matrix the
    /// bound is never the reason a walk ends.
    pub fn cover(&mut self, c: Cell)
        requires
            old(self).wf(),
            c.0 < old(self).x.data@.len(),
        ensures
            final(self).wf(),
            final(self).x.data@ == remove_links(old(self).x.data@, c),
            final(self).y.data@.len() == old(self).y.data@.len(),
            final(self).c@ == old(self).c@,
            final(self).size@.len() == old(self).size@.len(),
            final(self).y.data@ == stripped_column(
                remove_links(old(self).x.data@, c),
                old(self).c@,
                c,
                c,
                old(self).y.data@.len(),
                old(self).y.data@,
                old(self).size@,
            ).0,
            final(self).size@ == stripped_column(
                remove_links(old(self).x.data@, c),
                old(self).c@,
                c,
                c,
                old(self).y.data@.len(),
                old(self).y.data@,
                old(self).size@,
            ).1,
            old(self).y.data@[c.0 as int].next == c ==> final(self).y.data@ == old(
                self,
            ).y.data@ && final(self).size@ == old(self).size@,
    {
        let ghost xr = remove_links(old(self).x.data@, c);
        let ghost ctab = old(self).c@;
        let ghost target = stripped_column(
            xr,
            ctab,
            c,
            c,
            old(self).y.data@.len(),
            old(self).y.data@,
            old(self).size@,
        );
        self.x.remove(c);
        let mut i_cur = self.y.cursor(c);
        let mut i_steps = self.y.data.len();
        let ghost mut prev_i = c;
        let mut i_opt = i_cur.next(&self.y);
        while i_opt.is_some() && i_steps > 0
            invariant
                self.wf(),
                c.0 < self.x.data@.len(),
                self.x.data@ == remove_links(old(self).x.data@, c),
                self.x.data@ == xr,
                self.c@ == ctab,
                self.y.data@.len() == old(self).y.data@.len(),
                self.c@ == old(self).c@,
                self.size@.len() == old(self).size@.len(),
                i_cur.head == c,
                i_cur.current.0 < self.y.data@.len(),
                prev_i.0 < self.y.data@.len(),
                i_cur.current == self.y.data@[prev_i.0 as int].next,
                target == stripped_column(
                    xr,
                    ctab,
                    c,
                    prev_i,
                    i_steps as nat,
                    self.y.data@,
                    self.size@,
                ),
                (i_opt.is_some() ==> i_opt == Option::Some(i_cur.current) && i_cur.current.0
                    != c.0),
                (i_opt.is_none() ==> i_cur.current == c),
                (old(self).y.data@[c.0 as int].next == c ==> i_opt.is_none()
                    && self.y.data@ == old(self).y.data@ && self.size@ == old(self).size@),
            decreases i_steps,
        {
            let i = i_opt.unwrap();
            let ghost row_target = stripped_row(
                xr,
                ctab,
                i,
                i,
                xr.len(),
                self.y.data@,
                self.size@,
            );
            proof {
                assert(target == stripped_column(
                    xr,
                    ctab,
                    c,
                    i,
                    (i_steps - 1) as nat,
                    row_target.0,
                    row_target.1,
                ));
            }
            let mut j_cur = self.x.cursor(i);
            let mut j_steps = self.x.data.len();
            let ghost mut prev_j = i;
            let mut j_opt = j_cur.next(&self.x);
            while j_opt.is_some() && j_steps > 0
                invariant
                    self.wf(),
                    self.x.data@ == remove_links(old(self).x.data@, c),
                    self.x.data@ == xr,
                    self.c@ == ctab,
                    self.y.data@.len() == old(self).y.data@.len(),
                    self.c@ == old(self).c@,
                    self.size@.len() == old(self).size@.len(),
                    i.0 < self.y.data@.len(),
                    j_cur.head == i,
                    j_cur.current.0 < self.x.data@.len(),
                    prev_j.0 < self.x.data@.len(),
                    j_cur.current == self.x.data@[prev_j.0 as int].next,
                    row_target == stripped_row(
                        xr,
                        ctab,
                        i,
                        prev_j,
                        j_steps as nat,
                        self.y.data@,
                        self.size@,
                    ),
                    target == stripped_column(
                        xr,
                        ctab,
                        c,
                        i,
                        (i_steps - 1) as nat,
                        row_target.0,
                        row_target.1,
                    ),
                    i_steps >= 1,
                    (j_opt.is_some() ==> j_opt == Option::Some(j_cur.current) && j_cur.current.0
                        != i.0),
                    (j_opt.is_none() ==> j_cur.current == i),
                decreases j_steps,
            {
                let j = j_opt.unwrap();
                self.y.remove(j);
                let cj = self.c[j.0];
                let s = self.size[cj.0];
                self.size.set(cj.0, s.wrapping_sub(1));
                proof {
                    assert(s.wrapping_sub(1) == counted_down(s));
                    prev_j = j;
                }
                j_opt = j_cur.next(&self.x);
                j_steps = j_steps - 1;
            }
            proof {
                assert(row_target.0 == self.y.data@ && row_target.1 == self.size@);
                prev_i = i;
            }
            i_opt = i_cur.next(&self.y);
            i_steps = i_steps - 1;
        }
        proof {
            assert(target.0 == self.y.data@ && target.1 == self.size@);
        }
    }

    /// Uncovers column `c`: the exact structural inverse of `cover(c)`,
    /// walking both circles backward so that every restore is the LIFO
    /// inverse of its matching remove, counting each column back up before
    /// re-linking its cell, and finally re-linking `c` itself into the
    /// header circle.
    pub fn uncover(&mut self, c: Cell)
        requires
            old(self).wf(),
            c.0 < old(self).x.data@.len(),
        ensures
            final(self).wf(),
            final(self).x.data@ == restore_links(old(self).x.data@, c),
            final(self).y.data@.len() == old(self).y.data@.len(),
            final(self).c@ == old(self).c@,
            final(self).size@.len() == old(self).size@.len(),
            final(self).y.data@ == restored_column(
                old(self).x.data@,
                old(self).c@,
                c,
                c,
                old(self).y.data@.len(),
                old(self).y.data@,
                old(self).size@,
            ).0,
            final(self).size@ == restored_column(
                old(self).x.data@,
                old(self).c@,
                c,
                c,
                old(self).y.data@.len(),
                old(self).y.data@,
                old(self).size@,
            ).1,
            old(self).y.data@[c.0 as int].prev == c ==> final(self).y.data@ == old(
                self,
            ).y.data@ && final(self).size@ == old(self).size@,
    {
        let ghost x0 = old(self).x.data@;
        let ghost ctab = old(self).c@;
        let ghost target = restored_column(
            x0,
            ctab,
            c,
            c,
            old(self).y.data@.len(),
            old(self).y.data@,
            old(self).size@,
        );
        let mut i_cur = self.y.cursor(c);
        let mut i_steps = self.y.data.len();
        let ghost mut prev_i = c;
        let mut i_opt = i_cur.prev(&self.y);
        while i_opt.is_some() && i_steps > 0
            invariant
                self.wf(),
                c.0 < self.x.data@.len(),
                self.x.data@ == x0,
                self.c@ == ctab,
                self.y.data@.len() == old(self).y.data@.len(),
                self.c@ == old(self).c@,
                self.size@.len() == old(self).size@.len(),
                i_cur.head == c,
                i_cur.current.0 < self.y.data@.len(),
                prev_i.0 < self.y.data@.len(),
                i_cur.current == self.y.data@[prev_i.0 as int].prev,
                target == restored_column(
                    x0,
                    ctab,
                    c,
                    prev_i,
                    i_steps as nat,
                    self.y.data@,
                    self.size@,
                ),
                (i_opt.is_some() ==> i_opt == Option::Some(i_cur.current) && i_cur.current.0
                    != c.0),
                (i_opt.is_none() ==> i_cur.current == c),
                (old(self).y.data@[c.0 as int].prev == c ==> i_opt.is_none()
                    && self.y.data@ == old(self).y.data@ && self.size@ == old(self).size@),
            decreases i_steps,
        {
            let i = i_opt.unwrap();
            let ghost row_target = restored_row(
                x0,
                ctab,
                i,
                i,
                x0.len(),
                self.y.data@,
                self.size@,
            );
            proof {
                assert(target == restored_column(
                    x0,
                    ctab,
                    c,
                    i,
                    (i_steps - 1) as nat,
                    row_target.0,
                    row_target.1,
                ));
            }
            let mut j_cur = self.x.cursor(i);
            let mut j_steps = self.x.data.len();
            let ghost mut prev_j = i;
            let mut j_opt = j_cur.prev(&self.x);
            while j_opt.is_some() && j_steps > 0
                invariant
                    self.wf(),
                    self.x.data@ == x0,
                    self.c@ == ctab,
                    self.y.data@.len() == old(self).y.data@.len(),
                    self.c@ == old(self).c@,
                    self.size@.len() == old(self).size@.len(),
                    i.0 < self.y.data@.len(),
                    j_cur.head == i,
                    j_cur.current.0 < self.x.data@.len(),
                    prev_j.0 < self.x.data@.len(),
                    j_cur.current == self.x.data@[prev_j.0 as int].prev,
                    row_target == restored_row(
                        x0,
                        ctab,
                        i,
                        prev_j,
                        j_steps as nat,
                        self.y.data@,
                        self.size@,
                    ),
                    target == restored_column(
                        x0,
                        ctab,
                        c,
                        i,
                        (i_steps - 1) as nat,
                        row_target.0,
                        row_target.1,
                    ),
                    i_steps >= 1,
                    (j_opt.is_some() ==> j_opt == Option::Some(j_cur.current) && j_cur.current.0
                        != i.0),
                    (j_opt.is_none() ==> j_cur.current == i),
                decreases j_steps,
            {
                let j = j_opt.unwrap();
                let cj = self.c[j.0];
                let s = self.size[cj.0];
                self.size.set(cj.0, s.wrapping_add(1));
                self.y.restore(j);
                proof {
                    assert(s.wrapping_add(1) == counted_up(s));
                    prev_j = j;
                }
                j_opt = j_cur.prev(&self.x);
                j_steps = j_steps - 1;
            }
            proof {
                assert(row_target.0 == self.y.data@ && row_target.1 == self.size@);
                prev_i = i;
            }
            i_opt = i_cur.prev(&self.y);
            i_steps = i_steps - 1;
        }
        proof {
            assert(target.0 == self.y.data@ && target.1 == self.size@);
        }
        self.x.restore(c);
    }
}

/// The counter leg of the cover/uncover round trip: counting a column down
/// and back up (or up and back down) is the identity on every counter value,
/// with no assumption about how large the counter currently is.
pub proof fn lemma_counter_round_trip(n: usize)
    ensures
        counted_up(counted_down(n)) == n,
        counted_down(counted_up(n)) == n,
{
}

/// The round-trip law for one column of the column-direction links: on a
/// well-formed matrix, covering an active column `c` turns the links into
/// `remove_links(.., c)` and uncovering it turns them into
/// `restore_links(.., c)`, and for a properly linked `c` the second is the
/// exact inverse of the first, entry for entry.
pub proof fn lemma_column_round_trip(m: Matrix, c: Cell)
    requires
        m.wf(),
        c.0 < m.x.data@.len(),
        properly_linked(m.x.data@, c),
    ensures
        restore_links(remove_links(m.x.data@, c), c) == m.x.data@,
{
    lemma_remove_then_restore(m.x.data@, c);
}

} // verus!
