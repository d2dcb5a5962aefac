//! The diff of a frame against what the display shows: which pixels have to
//! be sent, in which order, and what the display shows afterwards.

use vstd::prelude::*;

verus! {

/// One character's worth of pixels: `Y` rows of `X` pixels each.
pub type Cell<T, const X: usize, const Y: usize> = [[T; X]; Y];

/// A change of one pixel, as handed to the display: the column counted
/// over the whole line of cells, the row, and the new value.
pub type PixelChange<T> = (usize, usize, T);

/// The cell whose pixels all have the value `off`.
pub open spec fn uniform_cell<T: Copy, const X: usize, const Y: usize>(off: T) -> Cell<T, X, Y> {
    [[off; X]; Y]
}

/// The change that brings the pixel in column `x` of row `y` of cell
/// number `i` to the value it has in `cell`.
pub open spec fn change_at<T, const X: usize, const Y: usize>(
    cell: Cell<T, X, Y>,
    i: int,
    y: int,
    x: int,
) -> PixelChange<T> {
    ((x + X * i) as usize, y as usize, cell[y][x])
}

/// The changes in the first `n` columns of row `y`, from left to right.
pub open spec fn row_changes<T, const X: usize, const Y: usize>(
    cell: Cell<T, X, Y>,
    shown: Cell<T, X, Y>,
    i: int,
    y: int,
    n: nat,
) -> Seq<PixelChange<T>>
    decreases n,
{
    if n == 0 {
        Seq::empty()
    } else {
        let x = n - 1;
        let before = row_changes(cell, shown, i, y, x as nat);
        if cell[y][x] == shown[y][x] {
            before
        } else {
            before.push(change_at(cell, i, y, x))
        }
    }
}

/// The changes in the first `m` rows of a cell, row after row.
pub open spec fn cell_changes<T, const X: usize, const Y: usize>(
    cell: Cell<T, X, Y>,
    shown: Cell<T, X, Y>,
    i: int,
    m: nat,
) -> Seq<PixelChange<T>>
    decreases m,
{
    if m == 0 {
        Seq::empty()
    } else {
        cell_changes(cell, shown, i, (m - 1) as nat) + row_changes(
            cell,
            shown,
            i,
            m - 1,
            X as nat,
        )
    }
}

/// The changes in the first `k` cells of a frame, cell after cell.
pub open spec fn frame_changes<T, const X: usize, const Y: usize>(
    frame: Seq<Cell<T, X, Y>>,
    shown: Seq<Cell<T, X, Y>>,
    k: nat,
) -> Seq<PixelChange<T>>
    decreases k,
{
    if k == 0 {
        Seq::empty()
    } else {
        frame_changes(frame, shown, (k - 1) as nat) + cell_changes(
            frame[k - 1],
            shown[k - 1],
            k - 1,
            Y as nat,
        )
    }
}

/// How many cells of `frame` a buffer that remembers `shown` looks at.
pub open spec fn walk_len<T, const X: usize, const Y: usize>(
    frame: Seq<Cell<T, X, Y>>,
    shown: Seq<Cell<T, X, Y>>,
) -> nat {
    if frame.len() <= shown.len() {
        frame.len()
    } else {
        shown.len()
    }
}

/// Every pixel of `frame` that differs from what `shown` remembers, in the
/// order of the walk: cell by cell, row by row, left to right. Cells for
/// which `shown` has no room are left out.
pub open spec fn pixel_changes<T, const X: usize, const Y: usize>(
    frame: Seq<Cell<T, X, Y>>,
    shown: Seq<Cell<T, X, Y>>,
) -> Seq<PixelChange<T>> {
    frame_changes(frame, shown, walk_len(frame, shown))
}

/// What the buffer remembers once `frame` has been walked: the cells of
/// the frame where it has room for them, and what it held before elsewhere.
pub open spec fn shown_after<T, const X: usize, const Y: usize>(
    frame: Seq<Cell<T, X, Y>>,
    shown: Seq<Cell<T, X, Y>>,
) -> Seq<Cell<T, X, Y>> {
    Seq::new(
        shown.len(),
        |i: int|
            if i < frame.len() {
                frame[i]
            } else {
                shown[i]
            },
    )
}

/// The changes of a row come one column at a time: what the first `a`
/// columns give is the beginning of what the first `b` give.
proof fn lemma_row_changes_grow<T, const X: usize, const Y: usize>(
    cell: Cell<T, X, Y>,
    shown: Cell<T, X, Y>,
    i: int,
    y: int,
    a: nat,
    b: nat,
)
    requires
        a <= b,
    ensures
        row_changes(cell, shown, i, y, a).is_prefix_of(row_changes(cell, shown, i, y, b)),
    decreases b,
{
    if a < b {
        lemma_row_changes_grow(cell, shown, i, y, a, (b - 1) as nat);
    }
}

/// The changes of a cell come one row at a time.
proof fn lemma_cell_changes_grow<T, const X: usize, const Y: usize>(
    cell: Cell<T, X, Y>,
    shown: Cell<T, X, Y>,
    i: int,
    a: nat,
    b: nat,
)
    requires
        a <= b,
    ensures
        cell_changes(cell, shown, i, a).is_prefix_of(cell_changes(cell, shown, i, b)),
    decreases b,
{
    if a < b {
        lemma_cell_changes_grow(cell, shown, i, a, (b - 1) as nat);
    }
}

/// The changes of a frame come one cell at a time.
proof fn lemma_frame_changes_grow<T, const X: usize, const Y: usize>(
    frame: Seq<Cell<T, X, Y>>,
    shown: Seq<Cell<T, X, Y>>,
    a: nat,
    b: nat,
)
    requires
        a <= b,
    ensures
        frame_changes(frame, shown, a).is_prefix_of(frame_changes(frame, shown, b)),
    decreases b,
{
    if a < b {
        lemma_frame_changes_grow(frame, shown, a, (b - 1) as nat);
    }
}

/// The changes found when the walk stands before column `x` of row `y` of
/// cell `i`.
pub open spec fn changes_before<T, const X: usize, const Y: usize>(
    frame: Seq<Cell<T, X, Y>>,
    shown: Seq<Cell<T, X, Y>>,
    i: int,
    y: int,
    x: int,
) -> Seq<PixelChange<T>> {
    frame_changes(frame, shown, i as nat) + cell_changes(frame[i], shown[i], i, y as nat)
        + row_changes(frame[i], shown[i], i, y, x as nat)
}

/// Wherever the walk stands, what it has found so far is the beginning of
/// what it will have found at its end.
pub proof fn lemma_changes_before_is_prefix<T, const X: usize, const Y: usize>(
    frame: Seq<Cell<T, X, Y>>,
    shown: Seq<Cell<T, X, Y>>,
    n: nat,
    i: int,
    y: int,
    x: int,
)
    requires
        0 <= i < n,
        0 <= y < Y,
        0 <= x <= X,
    ensures
        changes_before(frame, shown, i, y, x).is_prefix_of(frame_changes(frame, shown, n)),
{
    let head = frame_changes(frame, shown, i as nat);
    let rows = cell_changes(frame[i], shown[i], i, y as nat);
    let row = row_changes(frame[i], shown[i], i, y, x as nat);
    let full_row = row_changes(frame[i], shown[i], i, y, X as nat);
    let full_cell = cell_changes(frame[i], shown[i], i, Y as nat);
    lemma_row_changes_grow(frame[i], shown[i], i, y, x as nat, X as nat);
    lemma_cell_changes_grow(frame[i], shown[i], i, (y + 1) as nat, Y as nat);
    lemma_frame_changes_grow(frame, shown, (i + 1) as nat, n);
    assert(cell_changes(frame[i], shown[i], i, (y + 1) as nat) == rows + full_row);
    assert(frame_changes(frame, shown, (i + 1) as nat) == head + full_cell);
    assert((rows + row).is_prefix_of(rows + full_row));
    assert((rows + row).is_prefix_of(full_cell));
    assert((head + (rows + row)).is_prefix_of(head + full_cell));
    assert(head + (rows + row) =~= head + rows + row);
}

/// One step of the walk, over the pixel in column `x` of row `y` of cell
/// `i`: a pixel that is as shown adds nothing, and one that differs adds
/// its change, which is the next one of the whole walk.
pub proof fn lemma_walk_step<T, const X: usize, const Y: usize>(
    frame: Seq<Cell<T, X, Y>>,
    shown: Seq<Cell<T, X, Y>>,
    i: int,
    y: int,
    x: int,
)
    requires
        0 <= i < walk_len(frame, shown),
        0 <= y < Y,
        0 <= x < X,
    ensures
        frame[i][y][x] == shown[i][y][x] ==> changes_before(frame, shown, i, y, x + 1)
            == changes_before(frame, shown, i, y, x),
        frame[i][y][x] != shown[i][y][x] ==> {
            let found = changes_before(frame, shown, i, y, x);
            let change = change_at(frame[i], i, y, x);
            &&& changes_before(frame, shown, i, y, x + 1) == found.push(change)
            &&& found.len() < pixel_changes(frame, shown).len()
            &&& pixel_changes(frame, shown)[found.len() as int] == change
        },
{
    let found = changes_before(frame, shown, i, y, x);
    let next = changes_before(frame, shown, i, y, x + 1);
    lemma_changes_before_is_prefix(frame, shown, walk_len(frame, shown), i, y, x + 1);
    pixel_changes(frame, shown).lemma_prefix_index_eq(next);
    if frame[i][y][x] == shown[i][y][x] {
        assert(next =~= found);
    } else {
        assert(next =~= found.push(change_at(frame[i], i, y, x)));
    }
}

/// Whether the walk of `frame` finds the pixel in column `x` of row `y` of
/// cell `i` changed: the cell is within reach, and the pixel differs from
/// what `shown` remembers of it.
pub open spec fn is_change<T, const X: usize, const Y: usize>(
    frame: Seq<Cell<T, X, Y>>,
    shown: Seq<Cell<T, X, Y>>,
    i: int,
    y: int,
    x: int,
) -> bool {
    &&& 0 <= i < walk_len(frame, shown)
    &&& 0 <= y < Y
    &&& 0 <= x < X
    &&& frame[i][y][x] != shown[i][y][x]
}

/// Where the columns of all cells fit a `usize`, a change carries the
/// column `x + X * i`, the row `y` and the new value of its pixel.
pub proof fn lemma_change_at_coordinates<T, const X: usize, const Y: usize>(
    cell: Cell<T, X, Y>,
    i: int,
    y: int,
    x: int,
    cells: nat,
)
    requires
        0 <= i < cells,
        0 <= y < Y,
        0 <= x < X,
        X * cells <= usize::MAX,
    ensures
        change_at(cell, i, y, x).0 == x + X * i,
        change_at(cell, i, y, x).1 == y,
        change_at(cell, i, y, x).2 == cell[y][x],
        x + X * i < X * cells,
{
    assert(0 <= X * i && X * i + x < X * cells) by (nonlinear_arith)
        requires
            0 <= i < cells,
            0 <= x < X,
    ;
}

/// Columns in which a row is as shown add no change.
proof fn lemma_row_changes_skip_equal<T, const X: usize, const Y: usize>(
    cell: Cell<T, X, Y>,
    shown: Cell<T, X, Y>,
    i: int,
    y: int,
    a: nat,
    b: nat,
)
    requires
        a <= b,
        forall|c: int| a <= c < b ==> cell[y][c] == shown[y][c],
    ensures
        row_changes(cell, shown, i, y, b) == row_changes(cell, shown, i, y, a),
    decreases b,
{
    if a < b {
        lemma_row_changes_skip_equal(cell, shown, i, y, a, (b - 1) as nat);
    }
}

/// Rows in which a cell is as shown add no change.
proof fn lemma_cell_changes_skip_equal<T, const X: usize, const Y: usize>(
    cell: Cell<T, X, Y>,
    shown: Cell<T, X, Y>,
    i: int,
    a: nat,
    b: nat,
)
    requires
        a <= b,
        forall|r: int, c: int| a <= r < b && 0 <= c < X ==> cell[r][c] == shown[r][c],
    ensures
        cell_changes(cell, shown, i, b) == cell_changes(cell, shown, i, a),
    decreases b,
{
    if a < b {
        lemma_cell_changes_skip_equal(cell, shown, i, a, (b - 1) as nat);
        lemma_row_changes_skip_equal(cell, shown, i, b - 1, 0, X as nat);
        assert(cell_changes(cell, shown, i, b) =~= cell_changes(cell, shown, i, (b - 1) as nat));
    }
}

/// Cells that are as shown add no change.
proof fn lemma_frame_changes_skip_equal<T, const X: usize, const Y: usize>(
    frame: Seq<Cell<T, X, Y>>,
    shown: Seq<Cell<T, X, Y>>,
    a: nat,
    b: nat,
)
    requires
        a <= b,
        forall|j: int, r: int, c: int|
            a <= j < b && 0 <= r < Y && 0 <= c < X ==> frame[j][r][c] == shown[j][r][c],
    ensures
        frame_changes(frame, shown, b) == frame_changes(frame, shown, a),
    decreases b,
{
    if a < b {
        lemma_frame_changes_skip_equal(frame, shown, a, (b - 1) as nat);
        lemma_cell_changes_skip_equal(frame[b - 1], shown[b - 1], b - 1, 0, Y as nat);
        assert(frame_changes(frame, shown, b) =~= frame_changes(frame, shown, (b - 1) as nat));
    }
}

/// A display that shows the frame already is left alone: the walk finds
/// no change and the memory stays as it is.
pub proof fn lemma_shown_frame_is_silent<T, const X: usize, const Y: usize>(
    frame: Seq<Cell<T, X, Y>>,
    shown: Seq<Cell<T, X, Y>>,
)
    requires
        forall|j: int| 0 <= j < walk_len(frame, shown) ==> frame[j] == shown[j],
    ensures
        pixel_changes(frame, shown) == Seq::<PixelChange<T>>::empty(),
        shown_after(frame, shown) == shown,
{
    lemma_frame_changes_skip_equal(frame, shown, 0, walk_len(frame, shown));
    assert(shown_after(frame, shown) =~= shown);
}

/// Walking the same frame twice in a row: the second walk finds no
/// change, whatever the display showed before the first.
pub proof fn lemma_second_walk_is_silent<T, const X: usize, const Y: usize>(
    frame: Seq<Cell<T, X, Y>>,
    shown: Seq<Cell<T, X, Y>>,
)
    ensures
        pixel_changes(frame, shown_after(frame, shown)) == Seq::<PixelChange<T>>::empty(),
        shown_after(frame, shown_after(frame, shown)) == shown_after(frame, shown),
{
    lemma_shown_frame_is_silent(frame, shown_after(frame, shown));
}

/// After a walk of `frame`, a frame `next` of the same length that differs
/// from it in the one pixel in column `x` of row `y` of cell `i`, a cell
/// within reach of the buffer, gives exactly one change: that pixel with
/// its new value.
pub proof fn lemma_single_change<T, const X: usize, const Y: usize>(
    frame: Seq<Cell<T, X, Y>>,
    next: Seq<Cell<T, X, Y>>,
    shown: Seq<Cell<T, X, Y>>,
    i: int,
    y: int,
    x: int,
)
    requires
        next.len() == frame.len(),
        0 <= i < frame.len(),
        i < shown.len(),
        0 <= y < Y,
        0 <= x < X,
        next[i][y][x] != frame[i][y][x],
        forall|j: int, r: int, c: int|
            0 <= j < frame.len() && 0 <= r < Y && 0 <= c < X && !(j == i && r == y && c == x)
                ==> next[j][r][c] == frame[j][r][c],
    ensures
        pixel_changes(next, shown_after(frame, shown)) == seq![change_at(next[i], i, y, x)],
{
    let now = shown_after(frame, shown);
    let n = walk_len(next, now);
    let one = seq![change_at(next[i], i, y, x)];
    // The row of the pixel.
    lemma_row_changes_skip_equal(next[i], now[i], i, y, 0, x as nat);
    lemma_row_changes_skip_equal(next[i], now[i], i, y, (x + 1) as nat, X as nat);
    assert(row_changes(next[i], now[i], i, y, (x + 1) as nat) =~= one);
    // The cell of the pixel.
    lemma_cell_changes_skip_equal(next[i], now[i], i, 0, y as nat);
    lemma_cell_changes_skip_equal(next[i], now[i], i, (y + 1) as nat, Y as nat);
    assert(cell_changes(next[i], now[i], i, (y + 1) as nat) =~= one);
    // The cells before it and behind it.
    lemma_frame_changes_skip_equal(next, now, 0, i as nat);
    lemma_frame_changes_skip_equal(next, now, (i + 1) as nat, n);
    assert(frame_changes(next, now, (i + 1) as nat) =~= one);
}

/// Cells for which the buffer has no room are not looked at: the walk of
/// a frame finds what the walk of its first `shown.len()` cells finds, and
/// leaves the same memory.
pub proof fn lemma_walk_stops_at_capacity<T, const X: usize, const Y: usize>(
    frame: Seq<Cell<T, X, Y>>,
    shown: Seq<Cell<T, X, Y>>,
)
    requires
        frame.len() >= shown.len(),
    ensures
        pixel_changes(frame, shown) == pixel_changes(frame.take(shown.len() as int), shown),
        shown_after(frame, shown) == shown_after(frame.take(shown.len() as int), shown),
{
    let head = frame.take(shown.len() as int);
    lemma_frame_changes_same_cells(frame, head, shown, shown.len());
    assert(shown_after(frame, shown) =~= shown_after(head, shown));
}

/// Two frames with the same first `k` cells have the same changes there.
proof fn lemma_frame_changes_same_cells<T, const X: usize, const Y: usize>(
    frame: Seq<Cell<T, X, Y>>,
    other: Seq<Cell<T, X, Y>>,
    shown: Seq<Cell<T, X, Y>>,
    k: nat,
)
    requires
        forall|j: int| 0 <= j < k ==> frame[j] == other[j],
    ensures
        frame_changes(frame, shown, k) == frame_changes(other, shown, k),
    decreases k,
{
    if k > 0 {
        lemma_frame_changes_same_cells(frame, other, shown, (k - 1) as nat);
    }
}

/// Every change that the walk finds is the change of a pixel that differs
/// from what is shown, in a cell within reach. The lemma names the pixel.
pub proof fn lemma_change_has_origin<T, const X: usize, const Y: usize>(
    frame: Seq<Cell<T, X, Y>>,
    shown: Seq<Cell<T, X, Y>>,
    k: int,
) -> (at: (int, int, int))
    requires
        0 <= k < pixel_changes(frame, shown).len(),
    ensures
        is_change(frame, shown, at.0, at.1, at.2),
        pixel_changes(frame, shown)[k] == change_at(frame[at.0], at.0, at.1, at.2),
{
    lemma_frame_change_has_origin(frame, shown, walk_len(frame, shown), k)
}

/// The origin of the change number `k` among those of the first `n` cells.
proof fn lemma_frame_change_has_origin<T, const X: usize, const Y: usize>(
    frame: Seq<Cell<T, X, Y>>,
    shown: Seq<Cell<T, X, Y>>,
    n: nat,
    k: int,
) -> (at: (int, int, int))
    requires
        0 <= k < frame_changes(frame, shown, n).len(),
    ensures
        0 <= at.0 < n,
        0 <= at.1 < Y,
        0 <= at.2 < X,
        frame[at.0][at.1][at.2] != shown[at.0][at.1][at.2],
        frame_changes(frame, shown, n)[k] == change_at(frame[at.0], at.0, at.1, at.2),
    decreases n,
{
    let before = frame_changes(frame, shown, (n - 1) as nat);
    if k < before.len() {
        lemma_frame_change_has_origin(frame, shown, (n - 1) as nat, k)
    } else {
        let (y, x) = lemma_cell_change_has_origin(
            frame[n - 1],
            shown[n - 1],
            n - 1,
            Y as nat,
            k - before.len(),
        );
        (n - 1, y, x)
    }
}

/// The origin of the change number `k` among those of the first `m` rows
/// of a cell.
proof fn lemma_cell_change_has_origin<T, const X: usize, const Y: usize>(
    cell: Cell<T, X, Y>,
    shown: Cell<T, X, Y>,
    i: int,
    m: nat,
    k: int,
) -> (at: (int, int))
    requires
        0 <= k < cell_changes(cell, shown, i, m).len(),
    ensures
        0 <= at.0 < m,
        0 <= at.1 < X,
        cell[at.0][at.1] != shown[at.0][at.1],
        cell_changes(cell, shown, i, m)[k] == change_at(cell, i, at.0, at.1),
    decreases m,
{
    let before = cell_changes(cell, shown, i, (m - 1) as nat);
    if k < before.len() {
        lemma_cell_change_has_origin(cell, shown, i, (m - 1) as nat, k)
    } else {
        let x = lemma_row_change_has_origin(cell, shown, i, m - 1, X as nat, k - before.len());
        (m - 1, x)
    }
}

/// The origin of the change number `k` among those of the first `n`
/// columns of a row.
proof fn lemma_row_change_has_origin<T, const X: usize, const Y: usize>(
    cell: Cell<T, X, Y>,
    shown: Cell<T, X, Y>,
    i: int,
    y: int,
    n: nat,
    k: int,
) -> (x: int)
    requires
        0 <= k < row_changes(cell, shown, i, y, n).len(),
    ensures
        0 <= x < n,
        cell[y][x] != shown[y][x],
        row_changes(cell, shown, i, y, n)[k] == change_at(cell, i, y, x),
    decreases n,
{
    let before = row_changes(cell, shown, i, y, (n - 1) as nat);
    if k < before.len() {
        lemma_row_change_has_origin(cell, shown, i, y, (n - 1) as nat, k)
    } else {
        n - 1
    }
}

/// Every pixel within reach that differs from what is shown is among the
/// changes that the walk finds.
pub proof fn lemma_change_is_found<T, const X: usize, const Y: usize>(
    frame: Seq<Cell<T, X, Y>>,
    shown: Seq<Cell<T, X, Y>>,
    i: int,
    y: int,
    x: int,
)
    requires
        is_change(frame, shown, i, y, x),
    ensures
        pixel_changes(frame, shown).contains(change_at(frame[i], i, y, x)),
{
    let all = pixel_changes(frame, shown);
    let upto = changes_before(frame, shown, i, y, x + 1);
    lemma_changes_before_is_prefix(frame, shown, walk_len(frame, shown), i, y, x + 1);
    all.lemma_prefix_index_eq(upto);
    assert(row_changes(frame[i], shown[i], i, y, (x + 1) as nat).last() == change_at(
        frame[i],
        i,
        y,
        x,
    ));
    assert(upto.last() == change_at(frame[i], i, y, x));
    assert(all[upto.len() - 1] == change_at(frame[i], i, y, x));
}

/// Whether the walk comes to the pixel `(i1, y1, x1)` before it comes to
/// `(i2, y2, x2)`: an earlier cell, or an earlier row of the same cell, or
/// a column further left in the same row.
pub open spec fn walked_before(i1: int, y1: int, x1: int, i2: int, y2: int, x2: int) -> bool {
    i1 < i2 || (i1 == i2 && (y1 < y2 || (y1 == y2 && x1 < x2)))
}

/// The changes stand in the order of the walk: of two pixels that differ
/// from what is shown, the one that the walk comes to first has its change
/// first. The lemma names the places of the two changes.
pub proof fn lemma_changes_in_walk_order<T, const X: usize, const Y: usize>(
    frame: Seq<Cell<T, X, Y>>,
    shown: Seq<Cell<T, X, Y>>,
    i1: int,
    y1: int,
    x1: int,
    i2: int,
    y2: int,
    x2: int,
) -> (k: (int, int))
    requires
        is_change(frame, shown, i1, y1, x1),
        is_change(frame, shown, i2, y2, x2),
        walked_before(i1, y1, x1, i2, y2, x2),
    ensures
        0 <= k.0 < k.1 < pixel_changes(frame, shown).len(),
        pixel_changes(frame, shown)[k.0] == change_at(frame[i1], i1, y1, x1),
        pixel_changes(frame, shown)[k.1] == change_at(frame[i2], i2, y2, x2),
{
    let first = changes_before(frame, shown, i1, y1, x1);
    let second = changes_before(frame, shown, i2, y2, x2);
    lemma_walk_step(frame, shown, i1, y1, x1);
    lemma_walk_step(frame, shown, i2, y2, x2);
    // What is found up to and with the first pixel is found before the second.
    if i1 < i2 {
        lemma_changes_before_is_prefix(frame, shown, i2 as nat, i1, y1, x1 + 1);
    } else if y1 < y2 {
        lemma_row_changes_grow(frame[i1], shown[i1], i1, y1, (x1 + 1) as nat, X as nat);
        lemma_cell_changes_grow(frame[i1], shown[i1], i1, (y1 + 1) as nat, y2 as nat);
    } else {
        lemma_row_changes_grow(frame[i1], shown[i1], i1, y1, (x1 + 1) as nat, x2 as nat);
    }
    assert(first.len() + 1 <= second.len());
    (first.len() as int, second.len() as int)
}

/// A walk finds at most one change for each pixel of each cell that it
/// looks at.
pub proof fn lemma_changes_are_bounded<T, const X: usize, const Y: usize>(
    frame: Seq<Cell<T, X, Y>>,
    shown: Seq<Cell<T, X, Y>>,
)
    ensures
        pixel_changes(frame, shown).len() <= walk_len(frame, shown) * (Y * X),
{
    lemma_frame_changes_are_bounded(frame, shown, walk_len(frame, shown));
}

/// The first `k` cells give at most `k * (Y * X)` changes.
proof fn lemma_frame_changes_are_bounded<T, const X: usize, const Y: usize>(
    frame: Seq<Cell<T, X, Y>>,
    shown: Seq<Cell<T, X, Y>>,
    k: nat,
)
    ensures
        frame_changes(frame, shown, k).len() <= k * (Y * X),
    decreases k,
{
    if k > 0 {
        lemma_frame_changes_are_bounded(frame, shown, (k - 1) as nat);
        lemma_cell_changes_are_bounded(frame[k - 1], shown[k - 1], k - 1, Y as nat);
        assert(k * (Y * X) == (k - 1) * (Y * X) + Y * X) by (nonlinear_arith);
    }
}

/// The first `m` rows of a cell give at most `m * X` changes.
proof fn lemma_cell_changes_are_bounded<T, const X: usize, const Y: usize>(
    cell: Cell<T, X, Y>,
    shown: Cell<T, X, Y>,
    i: int,
    m: nat,
)
    ensures
        cell_changes(cell, shown, i, m).len() <= m * X,
    decreases m,
{
    if m > 0 {
        lemma_cell_changes_are_bounded(cell, shown, i, (m - 1) as nat);
        lemma_row_changes_are_bounded(cell, shown, i, m - 1, X as nat);
        assert(m * X == (m - 1) * X + X) by (nonlinear_arith);
    }
}

/// The first `n` columns of a row give at most `n` changes.
proof fn lemma_row_changes_are_bounded<T, const X: usize, const Y: usize>(
    cell: Cell<T, X, Y>,
    shown: Cell<T, X, Y>,
    i: int,
    y: int,
    n: nat,
)
    ensures
        row_changes(cell, shown, i, y, n).len() <= n,
    decreases n,
{
    if n > 0 {
        lemma_row_changes_are_bounded(cell, shown, i, y, (n - 1) as nat);
    }
}

} // verus!
