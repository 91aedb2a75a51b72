use dlx::cell::Cell;
use dlx::linkedlist::link::Link;
use dlx::linkedlist::LinkedList;
use dlx::matrix::H;
use dlx::Matrix;

#[test]
fn link_new_is_self_linked() {
    let link = Link::new(Cell(3));
    assert_eq!(link.prev, Cell(3));
    assert_eq!(link.next, Cell(3));
}

#[test]
fn allocate_then_insert_splices_after() {
    let mut list = LinkedList::with_capacity(4);
    let a = list.allocate();
    let b = list.allocate();
    let c = list.allocate();
    assert_eq!(a, Cell(0));
    assert_eq!(b, Cell(1));
    assert_eq!(list.data[b.0].next, b);
    list.insert(a, b);
    list.insert(b, c);
    // circle a -> b -> c -> a
    assert_eq!(list.data[a.0].next, b);
    assert_eq!(list.data[b.0].next, c);
    assert_eq!(list.data[c.0].next, a);
    assert_eq!(list.data[a.0].prev, c);
    assert_eq!(list.data[b.0].prev, a);
    assert_eq!(list.data[c.0].prev, b);
}

#[test]
fn remove_then_restore_is_identity() {
    let mut list = LinkedList::with_capacity(3);
    let a = list.allocate();
    let b = list.allocate();
    let c = list.allocate();
    list.insert(a, b);
    list.insert(b, c);
    let snapshot = list.data.clone();

    list.remove(b);
    // the neighbours are bridged, while b itself still remembers its place
    assert_eq!(list.data[a.0].next, c);
    assert_eq!(list.data[c.0].prev, a);
    assert_eq!(list.data[b.0].prev, a);
    assert_eq!(list.data[b.0].next, c);

    list.restore(b);
    assert_eq!(list.data, snapshot);
}

#[test]
fn cursor_wraps_back_to_its_anchor() {
    let mut list = LinkedList::with_capacity(3);
    let a = list.allocate();
    let b = list.allocate();
    let c = list.allocate();
    list.insert(a, b);
    list.insert(b, c);

    let mut forward = list.cursor(a);
    assert_eq!(forward.next(&list), Some(b));
    assert_eq!(forward.next(&list), Some(c));
    assert_eq!(forward.next(&list), None);

    let mut backward = list.cursor(a);
    assert_eq!(backward.prev(&list), Some(c));
    assert_eq!(backward.prev(&list), Some(b));
    assert_eq!(backward.prev(&list), None);
}

#[test]
fn new_matrix_links_columns_in_a_circle() {
    let m = Matrix::new(3);
    assert_eq!(m.size, vec![0, 0, 0, 0]);
    assert_eq!(m.c, vec![Cell(0), Cell(1), Cell(2), Cell(3)]);
    for j in 0..4 {
        assert_eq!(m.x.data[j].next, Cell((j + 1) % 4));
        assert_eq!(m.x.data[j].prev, Cell((j + 3) % 4));
        assert_eq!(m.y.data[j].next, Cell(j));
        assert_eq!(m.y.data[j].prev, Cell(j));
    }
    assert_eq!(H, 0);
}

#[test]
fn add_row_hangs_cells_under_their_columns() {
    let mut m = Matrix::new(3);
    m.add_row(&[true, false, true]);
    // one cell under column 1 and one under column 3, chained as a row
    assert_eq!(m.size, vec![0, 1, 0, 1]);
    assert_eq!(m.c, vec![Cell(0), Cell(1), Cell(2), Cell(3), Cell(1), Cell(3)]);
    assert_eq!(m.y.data[1].next, Cell(4));
    assert_eq!(m.y.data[1].prev, Cell(4));
    assert_eq!(m.y.data[4].next, Cell(1));
    assert_eq!(m.y.data[3].next, Cell(5));
    assert_eq!(m.x.data[4].next, Cell(5));
    assert_eq!(m.x.data[4].prev, Cell(5));
    assert_eq!(m.x.data[5].next, Cell(4));

    m.add_row(&[false, true, true]);
    // the new cell of column 3 hangs at the bottom, below cell 5
    assert_eq!(m.size, vec![0, 1, 1, 2]);
    assert_eq!(m.y.data[3].prev, Cell(7));
    assert_eq!(m.y.data[5].next, Cell(7));
    assert_eq!(m.y.data[7].next, Cell(3));
}

#[test]
fn cover_then_uncover_restores_every_array() {
    let f = false;
    let t = true;
    let mut m = Matrix::new(7);
    m.add_row(&[f, f, t, f, t, t, f]);
    m.add_row(&[t, f, f, t, f, f, t]);
    m.add_row(&[f, t, t, f, f, t, f]);
    m.add_row(&[t, f, f, t, f, f, f]);
    m.add_row(&[f, t, f, f, f, f, t]);
    m.add_row(&[f, f, f, t, t, f, t]);

    let x_before = m.x.data.clone();
    let y_before = m.y.data.clone();
    let c_before = m.c.clone();
    let size_before = m.size.clone();

    m.cover(Cell(1));
    // column 1 really left the header circle and its rows left their columns
    assert_eq!(m.x.data[H].next, Cell(2));
    assert_ne!(m.size, size_before);

    m.uncover(Cell(1));
    assert_eq!(m.x.data, x_before);
    assert_eq!(m.y.data, y_before);
    assert_eq!(m.c, c_before);
    assert_eq!(m.size, size_before);
}

#[test]
fn nested_cover_uncover_round_trip() {
    let mut m = Matrix::new(3);
    m.add_row(&[true, true, false]);
    m.add_row(&[false, true, true]);
    m.add_row(&[true, false, true]);

    let x_before = m.x.data.clone();
    let y_before = m.y.data.clone();
    let size_before = m.size.clone();

    m.cover(Cell(1));
    m.cover(Cell(2));
    m.uncover(Cell(2));
    m.uncover(Cell(1));

    assert_eq!(m.x.data, x_before);
    assert_eq!(m.y.data, y_before);
    assert_eq!(m.size, size_before);
}

#[test]
fn covering_an_empty_column_touches_only_the_header_circle() {
    let mut m = Matrix::new(2);
    m.add_row(&[true, false]);
    let y_before = m.y.data.clone();
    let size_before = m.size.clone();

    m.cover(Cell(2));
    assert_eq!(m.x.data[H].next, Cell(1));
    assert_eq!(m.x.data[1].next, Cell(0));
    assert_eq!(m.y.data, y_before);
    assert_eq!(m.size, size_before);

    m.uncover(Cell(2));
    assert_eq!(m.x.data[1].next, Cell(2));
    assert_eq!(m.y.data, y_before);
    assert_eq!(m.size, size_before);
}
