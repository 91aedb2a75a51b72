pub mod cell;
pub mod linkedlist;
pub mod matrix;

pub use matrix::Matrix;

use crate::cell::Cell;
use crate::linkedlist::link::Link;
use crate::matrix::counted_up;
use crate::matrix::covered;
use crate::matrix::uncovered;
use crate::matrix::H;
use vstd::prelude::*;

verus! {

/// The effect of covering, in forward order, the column of every cell of
/// `r`'s row other than `r` itself: walking `r`'s row circle through the
/// then-current column-direction links from position `j`, for at most
/// `steps` more cells, the column owning each cell met is covered in turn.
pub open spec fn covered_row(
    ctab: Seq<Cell>,
    r: Cell,
    j: Cell,
    steps: nat,
    x: Seq<Link>,
    y: Seq<Link>,
    size: Seq<usize>,
) -> (Seq<Link>, Seq<Link>, Seq<usize>)
    decreases steps,
{
    if steps == 0 {
        (x, y, size)
    } else {
        let nj = x[j.0 as int].next;
        if nj == r {
            (x, y, size)
        } else {
            let st = covered(x, ctab, y, size, ctab[nj.0 as int]);
            covered_row(ctab, r, nj, (steps - 1) as nat, st.0, st.1, st.2)
        }
    }
}

/// The effect of uncovering, in exact reverse order, what covering `r`'s row
/// covered: the backward walk over the same row circle, uncovering the
/// column owning each cell met.
pub open spec fn uncovered_row(
    ctab: Seq<Cell>,
    r: Cell,
    j: Cell,
    steps: nat,
    x: Seq<Link>,
    y: Seq<Link>,
    size: Seq<usize>,
) -> (Seq<Link>, Seq<Link>, Seq<usize>)
    decreases steps,
{
    if steps == 0 {
        (x, y, size)
    } else {
        let nj = x[j.0 as int].prev;
        if nj == r {
            (x, y, size)
        } else {
            let st = uncovered(x, ctab, y, size, ctab[nj.0 as int]);
            uncovered_row(ctab, r, nj, (steps - 1) as nat, st.0, st.1, st.2)
        }
    }
}

/// The whole search as a function of the matrix state: what one level of the
/// backtracking leaves behind, starting from `x`/`y`/`size` with the running
/// count `count` and `fuel` levels available. An empty header circle steps
/// the count up; otherwise the cheapest column is covered, every row of it
/// is tried in turn (`searched_rows`), and the column is uncovered again.
/// `solve` returns exactly the count this function computes.
pub open spec fn searched(
    ctab: Seq<Cell>,
    x: Seq<Link>,
    y: Seq<Link>,
    size: Seq<usize>,
    count: usize,
    fuel: nat,
) -> (Seq<Link>, Seq<Link>, Seq<usize>, usize)
    decreases fuel, 1int, 0int,
{
    if x[H as int].next.0 == H {
        (x, y, size, counted_up(count))
    } else if fuel == 0 {
        (x, y, size, count)
    } else {
        let c = scanned_min(x, size, x[H as int].next, size.len(), x[H as int].next);
        let cv = covered(x, ctab, y, size, c);
        let rows = searched_rows(ctab, c, c, cv.1.len(), fuel, cv.0, cv.1, cv.2, count);
        let un = uncovered(rows.0, ctab, rows.1, rows.2, c);
        (un.0, un.1, un.2, rows.3)
    }
}

/// The row loop of one search level: walking column `c`'s vertical circle
/// forward from position `i` for at most `steps` more rows, each row met is
/// chosen (its other columns covered), searched one level deeper, and
/// retracted (its other columns uncovered in reverse).
pub open spec fn searched_rows(
    ctab: Seq<Cell>,
    c: Cell,
    i: Cell,
    steps: nat,
    fuel: nat,
    x: Seq<Link>,
    y: Seq<Link>,
    size: Seq<usize>,
    count: usize,
) -> (Seq<Link>, Seq<Link>, Seq<usize>, usize)
    decreases fuel, 0int, steps,
{
    if steps == 0 || fuel == 0 {
        (x, y, size, count)
    } else {
        let ni = y[i.0 as int].next;
        if ni == c {
            (x, y, size, count)
        } else {
            let cvr = covered_row(ctab, ni, ni, x.len(), x, y, size);
            let rec = searched(ctab, cvr.0, cvr.1, cvr.2, count, (fuel - 1) as nat);
            let unr = uncovered_row(ctab, ni, ni, rec.0.len(), rec.0, rec.1, rec.2);
            searched_rows(ctab, c, ni, (steps - 1) as nat, fuel, unr.0, unr.1, unr.2, rec.3)
        }
    }
}

/// The column the minimum-size scan settles on: walking the header circle
/// left to right from `pos` for at most `steps` more columns, `best` is
/// replaced only by a strictly smaller column — so among equally small
/// columns the first seen wins — and the walk ends when it wraps back to the
/// header. This makes the heuristic's choice, tie-break included, a function
/// of the matrix state.
pub open spec fn scanned_min(
    x: Seq<Link>,
    size: Seq<usize>,
    pos: Cell,
    steps: nat,
    best: Cell,
) -> Cell
    decreases steps,
{
    if steps == 0 {
        best
    } else {
        let np = x[pos.0 as int].next;
        if np.0 == H {
            best
        } else if size[np.0 as int] < size[best.0 as int] {
            scanned_min(x, size, np, (steps - 1) as nat, np)
        } else {
            scanned_min(x, size, np, (steps - 1) as nat, best)
        }
    }
}

/// Counts the exact covers of `m`: the subsets of its rows whose set columns
/// together hit every column exactly once. The matrix is explored
/// destructively but left structurally restored when the search returns; it
/// should not be reused concurrently with the call. The result is pinned
/// exactly: it is the count that `searched` computes from the starting
/// state. A matrix with no columns has exactly the empty cover, so the
/// count is 1.
pub fn solve(m: Matrix) -> (r: usize)
    requires
        m.wf(),
    ensures
        m.size@.len() == 1 ==> r == 1,
        m.x.data@[H as int].next.0 == H ==> r == 1,
        r == searched(m.c@, m.x.data@, m.y.data@, m.size@, 0, m.size@.len()).3,
{
    let mut m = m;
    let mut n_answers: usize = 0;
    let depth_bound = m.size.len();
    go(&mut m, &mut n_answers, depth_bound);
    n_answers
}

/// One level of the backtracking search: pick the cheapest active column,
/// cover it, and for each row of that column cover the row's other columns,
/// recurse, then uncover them in exact reverse order. When no active column
/// remains, a full exact cover has been found and the counter steps up
/// (wrapping at the machine bound). The whole effect, counter included, is
/// exactly `searched` of the starting state.
///
/// Each level resolves one column, so on a matrix built through `new` and
/// `add_row` the recursion is never deeper than the number of columns and
/// the fuel that `solve` supplies is never exhausted. That bound is not
/// proved here: `fuel` exists so that termination is checked, and a level
/// that arrives with none left while a column is still active stops
/// exploring instead of recursing, exactly as `searched` states.
fn go(m: &mut Matrix, n_answers: &mut usize, fuel: usize)
    requires
        old(m).wf(),
    ensures
        final(m).wf(),
        final(m).x.data@.len() == old(m).x.data@.len(),
        final(m).y.data@.len() == old(m).y.data@.len(),
        final(m).c@ == old(m).c@,
        final(m).size@.len() == old(m).size@.len(),
        ({
            let t = searched(
                old(m).c@,
                old(m).x.data@,
                old(m).y.data@,
                old(m).size@,
                *old(n_answers),
                fuel as nat,
            );
            final(m).x.data@ == t.0 && final(m).y.data@ == t.1 && final(m).size@ == t.2
                && *final(n_answers) == t.3
        }),
    decreases fuel,
{
    let ghost ctab = old(m).c@;
    let ghost goal = searched(
        ctab,
        old(m).x.data@,
        old(m).y.data@,
        old(m).size@,
        *old(n_answers),
        fuel as nat,
    );
    let c = match choose_column(m) {
        Some(c) => c,
        None => {
            *n_answers = (*n_answers).wrapping_add(1);
            proof {
                assert(*n_answers == counted_up(*old(n_answers)));
            }
            return ;
        },
    };
    if fuel == 0 {
        return ;
    }
    m.cover(c);
    let ghost rows_goal = searched_rows(
        ctab,
        c,
        c,
        m.y.data@.len(),
        fuel as nat,
        m.x.data@,
        m.y.data@,
        m.size@,
        *old(n_answers),
    );
    proof {
        assert(goal == ({
            let un = uncovered(rows_goal.0, ctab, rows_goal.1, rows_goal.2, c);
            (un.0, un.1, un.2, rows_goal.3)
        }));
    }
    let mut r_cur = m.y.cursor(c);
    let mut r_steps = m.y.data.len();
    let ghost mut prev_r = c;
    let mut r_opt = r_cur.next(&m.y);
    while r_opt.is_some() && r_steps > 0
        invariant
            m.wf(),
            m.x.data@.len() == old(m).x.data@.len(),
            m.y.data@.len() == old(m).y.data@.len(),
            m.c@ == ctab,
            m.c@ == old(m).c@,
            m.size@.len() == old(m).size@.len(),
            c.0 < m.x.data@.len(),
            fuel >= 1,
            r_cur.head == c,
            r_cur.current.0 < m.y.data@.len(),
            prev_r.0 < m.y.data@.len(),
            r_cur.current == m.y.data@[prev_r.0 as int].next,
            rows_goal == searched_rows(
                ctab,
                c,
                prev_r,
                r_steps as nat,
                fuel as nat,
                m.x.data@,
                m.y.data@,
                m.size@,
                *n_answers,
            ),
            goal == ({
                let un = uncovered(rows_goal.0, ctab, rows_goal.1, rows_goal.2, c);
                (un.0, un.1, un.2, rows_goal.3)
            }),
            (r_opt.is_some() ==> r_opt == Option::Some(r_cur.current) && r_cur.current.0 != c.0),
            (r_opt.is_none() ==> r_cur.current == c),
        decreases r_steps,
    {
        let r = r_opt.unwrap();
        cover_row(m, r);
        go(m, n_answers, fuel - 1);
        uncover_row(m, r);
        proof {
            prev_r = r;
        }
        r_opt = r_cur.next(&m.y);
        r_steps = r_steps - 1;
    }
    proof {
        assert(rows_goal.0 == m.x.data@ && rows_goal.1 == m.y.data@ && rows_goal.2 == m.size@
            && rows_goal.3 == *n_answers);
    }
    m.uncover(c);
}

/// Picks the active column with the fewest live cells, walking the header
/// circle left to right; the first column seen wins ties, which makes the
/// whole search deterministic. The result is exactly what `scanned_min` says
/// of the walk from the header's first column. Returns `None` exactly when
/// the header circle is empty, that is, when no active column remains.
fn choose_column(m: &Matrix) -> (r: Option<Cell>)
    requires
        m.wf(),
    ensures
        (match r {
            Option::Some(c) => 0 < c.0 < m.size@.len() && m.x.data@[H as int].next.0 != H && c
                == scanned_min(
                m.x.data@,
                m.size@,
                m.x.data@[H as int].next,
                m.size@.len(),
                m.x.data@[H as int].next,
            ),
            Option::None => m.x.data@[H as int].next.0 == H,
        }),
{
    let mut cur = m.x.cursor(Cell(H));
    let mut best = match cur.next(&m.x) {
        Some(c) => c,
        None => {
            return None;
        },
    };
    let ghost first = best;
    let ghost chosen = scanned_min(m.x.data@, m.size@, first, m.size@.len(), first);
    let mut steps = m.size.len();
    let ghost mut prev_pos = first;
    let mut n_opt = cur.next(&m.x);
    while n_opt.is_some() && steps > 0
        invariant
            m.wf(),
            0 < best.0 < m.size@.len(),
            m.x.data@[H as int].next.0 != H,
            cur.head.0 == H,
            cur.current.0 < m.size@.len(),
            prev_pos.0 < m.size@.len(),
            cur.current == m.x.data@[prev_pos.0 as int].next,
            chosen == scanned_min(m.x.data@, m.size@, prev_pos, steps as nat, best),
            (n_opt.is_some() ==> n_opt == Option::Some(cur.current) && cur.current.0 != H),
            (n_opt.is_none() ==> cur.current.0 == H),
        decreases steps,
    {
        let next_c = n_opt.unwrap();
        if m.size[next_c.0] < m.size[best.0] {
            best = next_c;
        }
        proof {
            prev_pos = next_c;
        }
        n_opt = cur.next(&m.x);
        steps = steps - 1;
    }
    proof {
        assert(chosen == best);
    }
    Some(best)
}

/// Covers, in forward order, the column of every cell of `r`'s row other
/// than `r` itself: the bookkeeping for choosing row `r` as part of a
/// partial solution. The effect is exactly `covered_row` of the state.
fn cover_row(m: &mut Matrix, r: Cell)
    requires
        old(m).wf(),
        r.0 < old(m).x.data@.len(),
    ensures
        final(m).wf(),
        final(m).x.data@.len() == old(m).x.data@.len(),
        final(m).y.data@.len() == old(m).y.data@.len(),
        final(m).c@ == old(m).c@,
        final(m).size@.len() == old(m).size@.len(),
        ({
            let t = covered_row(
                old(m).c@,
                r,
                r,
                old(m).x.data@.len(),
                old(m).x.data@,
                old(m).y.data@,
                old(m).size@,
            );
            final(m).x.data@ == t.0 && final(m).y.data@ == t.1 && final(m).size@ == t.2
        }),
{
    let ghost ctab = old(m).c@;
    let ghost goal = covered_row(
        ctab,
        r,
        r,
        old(m).x.data@.len(),
        old(m).x.data@,
        old(m).y.data@,
        old(m).size@,
    );
    let mut j_cur = m.x.cursor(r);
    let mut j_steps = m.x.data.len();
    let ghost mut prev_j = r;
    let mut j_opt = j_cur.next(&m.x);
    while j_opt.is_some() && j_steps > 0
        invariant
            m.wf(),
            m.x.data@.len() == old(m).x.data@.len(),
            m.y.data@.len() == old(m).y.data@.len(),
            m.c@ == ctab,
            m.c@ == old(m).c@,
            m.size@.len() == old(m).size@.len(),
            j_cur.head == r,
            j_cur.current.0 < m.x.data@.len(),
            prev_j.0 < m.x.data@.len(),
            j_cur.current == m.x.data@[prev_j.0 as int].next,
            goal == covered_row(ctab, r, prev_j, j_steps as nat, m.x.data@, m.y.data@, m.size@),
            (j_opt.is_some() ==> j_opt == Option::Some(j_cur.current) && j_cur.current.0 != r.0),
            (j_opt.is_none() ==> j_cur.current == r),
        decreases j_steps,
    {
        let j = j_opt.unwrap();
        let cj = m.c[j.0];
        m.cover(cj);
        proof {
            prev_j = j;
        }
        j_opt = j_cur.next(&m.x);
        j_steps = j_steps - 1;
    }
    proof {
        assert(goal.0 == m.x.data@ && goal.1 == m.y.data@ && goal.2 == m.size@);
    }
}

/// Uncovers, in exact reverse order, what `cover_row(m, r)` covered: the
/// bookkeeping for retracting the choice of row `r`. The effect is exactly
/// `uncovered_row` of the state.
fn uncover_row(m: &mut Matrix, r: Cell)
    requires
        old(m).wf(),
        r.0 < old(m).x.data@.len(),
    ensures
        final(m).wf(),
        final(m).x.data@.len() == old(m).x.data@.len(),
        final(m).y.data@.len() == old(m).y.data@.len(),
        final(m).c@ == old(m).c@,
        final(m).size@.len() == old(m).size@.len(),
        ({
            let t = uncovered_row(
                old(m).c@,
                r,
                r,
                old(m).x.data@.len(),
                old(m).x.data@,
                old(m).y.data@,
                old(m).size@,
            );
            final(m).x.data@ == t.0 && final(m).y.data@ == t.1 && final(m).size@ == t.2
        }),
{
    let ghost ctab = old(m).c@;
    let ghost goal = uncovered_row(
        ctab,
        r,
        r,
        old(m).x.data@.len(),
        old(m).x.data@,
        old(m).y.data@,
        old(m).size@,
    );
    let mut j_cur = m.x.cursor(r);
    let mut j_steps = m.x.data.len();
    let ghost mut prev_j = r;
    let mut j_opt = j_cur.prev(&m.x);
    while j_opt.is_some() && j_steps > 0
        invariant
            m.wf(),
            m.x.data@.len() == old(m).x.data@.len(),
            m.y.data@.len() == old(m).y.data@.len(),
            m.c@ == ctab,
            m.c@ == old(m).c@,
            m.size@.len() == old(m).size@.len(),
            j_cur.head == r,
            j_cur.current.0 < m.x.data@.len(),
            prev_j.0 < m.x.data@.len(),
            j_cur.current == m.x.data@[prev_j.0 as int].prev,
            goal == uncovered_row(ctab, r, prev_j, j_steps as nat, m.x.data@, m.y.data@, m.size@),
            (j_opt.is_some() ==> j_opt == Option::Some(j_cur.current) && j_cur.current.0 != r.0),
            (j_opt.is_none() ==> j_cur.current == r),
        decreases j_steps,
    {
        let j = j_opt.unwrap();
        let cj = m.c[j.0];
        m.uncover(cj);
        proof {
            prev_j = j;
        }
        j_opt = j_cur.prev(&m.x);
        j_steps = j_steps - 1;
    }
    proof {
        assert(goal.0 == m.x.data@ && goal.1 == m.y.data@ && goal.2 == m.size@);
    }
}

} // verus!
