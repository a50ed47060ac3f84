//! Board geometry: cells, bounds and adjacency.

use vstd::prelude::*;

verus! {

/// A zero-indexed cell coordinate `(x, y)`: column first, then row.
pub type Position = (usize, usize);

/// Whether `p` lies on a board of `width` columns and `height` rows.
pub open spec fn in_bounds(width: usize, height: usize, p: Position) -> bool {
    p.0 < width && p.1 < height
}

/// Whether `q` touches `p` horizontally, vertically or diagonally.
/// No cell is adjacent to itself.
pub open spec fn adjacent(p: Position, q: Position) -> bool {
    &&& p != q
    &&& -1 <= q.0 - p.0 <= 1
    &&& -1 <= q.1 - p.1 <= 1
}

/// The cells of the board that touch `p`.
pub open spec fn neighbours(width: usize, height: usize, p: Position) -> Set<Position> {
    Set::new(|q: Position| in_bounds(width, height, q) && adjacent(p, q))
}

/// The order in which cells are walked: by column, and within a column by row.
pub open spec fn precedes(a: Position, b: Position) -> bool {
    a.0 < b.0 || (a.0 == b.0 && a.1 < b.1)
}

/// Whether `cells` is strictly ascending in walking order.
pub open spec fn ascending(cells: Seq<Position>) -> bool {
    forall|i: int, j: int| 0 <= i < j < cells.len() ==> precedes(cells[i], cells[j])
}

/// The least coordinate within one step of `c`.
spec fn reach_start(c: usize) -> int {
    if c == 0 {
        0
    } else {
        c - 1
    }
}

/// One past the greatest coordinate within one step of `c` that lies below
/// `limit`.
spec fn reach_end(c: usize, limit: usize) -> int {
    if c + 2 <= limit {
        c + 2
    } else {
        limit as int
    }
}

fn window_start(c: usize) -> (lo: usize)
    ensures
        lo == reach_start(c),
{
    if c == 0 {
        0
    } else {
        c - 1
    }
}

fn window_end(c: usize, limit: usize) -> (end: usize)
    ensures
        end == reach_end(c, limit),
{
    if c < limit && limit - c >= 2 {
        c + 2
    } else {
        limit
    }
}

/// Lists the cells that touch `pos` on a board of the given size, in walking
/// order.
pub fn neighbours_of(width: usize, height: usize, pos: Position) -> (cells: Vec<Position>)
    ensures
        ascending(cells@),
        cells@.to_set() == neighbours(width, height, pos),
        cells@.len() == neighbours(width, height, pos).len(),
        cells@.len() <= 8,
{
    let x_lo: usize = window_start(pos.0);
    let x_end: usize = window_end(pos.0, width);
    let y_lo: usize = window_start(pos.1);
    let y_end: usize = window_end(pos.1, height);
    let ghost all = neighbours(width, height, pos);
    let mut cells: Vec<Position> = Vec::new();
    let mut i: usize = x_lo;
    while i < x_end
        invariant
            x_lo <= i,
            x_lo == reach_start(pos.0),
            y_lo == reach_start(pos.1),
            x_end == reach_end(pos.0, width),
            y_end == reach_end(pos.1, height),
            all == neighbours(width, height, pos),
            ascending(cells@),
            forall|k: int|
                0 <= k < cells.len() ==> all.contains(#[trigger] cells[k]) && cells[k].0 < i,
            forall|q: Position| all.contains(q) && q.0 < i ==> cells@.contains(q),
        decreases x_end - i,
    {
        let mut j: usize = y_lo;
        while j < y_end
            invariant
                x_lo <= i < x_end,
                y_lo <= j,
                x_lo == reach_start(pos.0),
                y_lo == reach_start(pos.1),
                x_end == reach_end(pos.0, width),
                y_end == reach_end(pos.1, height),
                all == neighbours(width, height, pos),
                ascending(cells@),
                forall|k: int|
                    0 <= k < cells.len() ==> all.contains(#[trigger] cells[k]) && precedes(
                        cells[k],
                        (i, j),
                    ),
                forall|q: Position| all.contains(q) && precedes(q, (i, j)) ==> cells@.contains(q),
            decreases y_end - j,
        {
            if i != pos.0 || j != pos.1 {
                let ghost before = cells@;
                cells.push((i, j));
                proof {
                    assert(all.contains((i, j)));
                    let next: Position = (i, (j + 1) as usize);
                    assert forall|q: Position|
                        all.contains(q) && precedes(q, next) implies cells@.contains(q) by {
                        if q == (i, j) {
                            assert(cells@[before.len() as int] == q);
                        } else {
                            assert(precedes(q, (i, j)));
                            let k = choose|k: int| 0 <= k < before.len() && before[k] == q;
                            assert(cells@[k] == q);
                        }
                    }
                }
            }
            j += 1;
        }
        i += 1;
    }
    proof {
        assert forall|q: Position| cells@.to_set().contains(q) <==> all.contains(q) by {
            if all.contains(q) {
                assert(q.0 < x_end);
            }
        }
        assert(cells@.to_set() =~= all);
        lemma_ascending_is_duplicate_free(cells@);
        cells@.unique_seq_to_set();
        lemma_neighbours_bounded(width, height, pos);
    }
    cells
}

/// An ascending sequence holds no cell twice.
pub proof fn lemma_ascending_is_duplicate_free(cells: Seq<Position>)
    requires
        ascending(cells),
    ensures
        cells.no_duplicates(),
{
    assert forall|i: int, j: int|
        0 <= i < cells.len() && 0 <= j < cells.len() && i != j implies cells[i] != cells[j] by {
        if i < j {
            assert(precedes(cells[i], cells[j]));
        } else {
            assert(precedes(cells[j], cells[i]));
        }
    }
}

/// An ascending sequence is known by its members: two of them that hold the
/// same cells are the same sequence.
pub proof fn lemma_ascending_determined(a: Seq<Position>, b: Seq<Position>)
    requires
        ascending(a),
        ascending(b),
        a.to_set() == b.to_set(),
    ensures
        a == b,
    decreases a.len(),
{
    lemma_ascending_is_duplicate_free(a);
    lemma_ascending_is_duplicate_free(b);
    a.unique_seq_to_set();
    b.unique_seq_to_set();
    if a.len() == 0 {
        assert(a =~= b);
    } else {
        let last = a.last();
        assert(a.to_set().contains(last)) by {
            assert(a[a.len() - 1] == last);
        }
        assert(b.to_set().contains(b.last())) by {
            assert(b[b.len() - 1] == b.last());
        }
        let i = choose|i: int| 0 <= i < b.len() && b[i] == last;
        let j = choose|j: int| 0 <= j < a.len() && a[j] == b.last();
        assert(last == b.last()) by {
            if i < b.len() - 1 {
                assert(precedes(b[i], b[b.len() - 1]));
            }
            if j < a.len() - 1 {
                assert(precedes(a[j], a[a.len() - 1]));
            }
        }
        lemma_drop_last_set(a);
        lemma_drop_last_set(b);
        assert forall|m: int, n: int| 0 <= m < n < a.drop_last().len() implies precedes(
            a.drop_last()[m],
            a.drop_last()[n],
        ) by {
            assert(precedes(a[m], a[n]));
        }
        assert forall|m: int, n: int| 0 <= m < n < b.drop_last().len() implies precedes(
            b.drop_last()[m],
            b.drop_last()[n],
        ) by {
            assert(precedes(b[m], b[n]));
        }
        lemma_ascending_determined(a.drop_last(), b.drop_last());
        assert(a =~= a.drop_last().push(last));
        assert(b =~= b.drop_last().push(last));
    }
}

/// Dropping the last cell of a sequence without duplicates removes that cell
/// from its members.
proof fn lemma_drop_last_set(cells: Seq<Position>)
    requires
        cells.len() > 0,
        cells.no_duplicates(),
    ensures
        cells.drop_last().to_set() == cells.to_set().remove(cells.last()),
{
    let front = cells.drop_last();
    let last = cells.last();
    assert forall|q: Position| front.to_set().contains(q) <==> cells.to_set().remove(last).contains(
        q,
    ) by {
        if front.to_set().contains(q) {
            let i = choose|i: int| 0 <= i < front.len() && front[i] == q;
            assert(cells[i] == q);
            assert(cells[i] != cells[cells.len() - 1]);
        }
        if cells.to_set().remove(last).contains(q) {
            let i = choose|i: int| 0 <= i < cells.len() && cells[i] == q;
            assert(front[i] == q);
        }
    }
    assert(front.to_set() =~= cells.to_set().remove(last));
}

/// The cell `dx` columns and `dy` rows away from `p`, if the board has it.
pub open spec fn shifted(width: usize, height: usize, p: Position, dx: int, dy: int) -> Option<
    Position,
> {
    let x = p.0 + dx;
    let y = p.1 + dy;
    if 0 <= x < width && 0 <= y < height {
        Some((x as usize, y as usize))
    } else {
        None
    }
}

/// 1 if the board has a cell `dx` columns and `dy` rows away from `p`, else 0.
pub open spec fn present(width: usize, height: usize, p: Position, dx: int, dy: int) -> nat {
    if shifted(width, height, p, dx, dy) is Some {
        1
    } else {
        0
    }
}

spec fn with_shifted(
    s: Set<Position>,
    width: usize,
    height: usize,
    p: Position,
    dx: int,
    dy: int,
) -> Set<Position> {
    match shifted(width, height, p, dx, dy) {
        Some(q) => s.insert(q),
        None => s,
    }
}

/// The neighbours of a cell are its eight surrounding cells, as far as the
/// board has them: the set is finite and has one member for each of the
/// eight directions in which the board goes on.
pub proof fn lemma_neighbours_by_direction(width: usize, height: usize, p: Position)
    ensures
        neighbours(width, height, p).finite(),
        neighbours(width, height, p).len() == present(width, height, p, -1, -1) + present(
            width,
            height,
            p,
            -1,
            0,
        ) + present(width, height, p, -1, 1) + present(width, height, p, 0, -1) + present(
            width,
            height,
            p,
            0,
            1,
        ) + present(width, height, p, 1, -1) + present(width, height, p, 1, 0) + present(
            width,
            height,
            p,
            1,
            1,
        ),
{
    let s0 = Set::<Position>::empty();
    let s1 = with_shifted(s0, width, height, p, -1, -1);
    let s2 = with_shifted(s1, width, height, p, -1, 0);
    let s3 = with_shifted(s2, width, height, p, -1, 1);
    let s4 = with_shifted(s3, width, height, p, 0, -1);
    let s5 = with_shifted(s4, width, height, p, 0, 1);
    let s6 = with_shifted(s5, width, height, p, 1, -1);
    let s7 = with_shifted(s6, width, height, p, 1, 0);
    let s8 = with_shifted(s7, width, height, p, 1, 1);
    assert(s1.finite() && s1.len() == present(width, height, p, -1, -1));
    assert(s2.finite() && s2.len() == s1.len() + present(width, height, p, -1, 0));
    assert(s3.finite() && s3.len() == s2.len() + present(width, height, p, -1, 1));
    assert(s4.finite() && s4.len() == s3.len() + present(width, height, p, 0, -1));
    assert(s5.finite() && s5.len() == s4.len() + present(width, height, p, 0, 1));
    assert(s6.finite() && s6.len() == s5.len() + present(width, height, p, 1, -1));
    assert(s7.finite() && s7.len() == s6.len() + present(width, height, p, 1, 0));
    assert(s8.finite() && s8.len() == s7.len() + present(width, height, p, 1, 1));
    assert(s8 =~= neighbours(width, height, p));
}

/// A cell has at most eight neighbours, whatever the board and the cell.
pub proof fn lemma_neighbours_bounded(width: usize, height: usize, p: Position)
    ensures
        neighbours(width, height, p).finite(),
        neighbours(width, height, p).len() <= 8,
{
    lemma_neighbours_by_direction(width, height, p);
}

/// Whether coordinate `c` is the first or the last below `limit`.
pub open spec fn on_border(c: usize, limit: usize) -> bool {
    c == 0 || c + 1 == limit
}

/// No neighbour of a cell lies off the board, none is the cell itself, and
/// each touches it.
pub proof fn lemma_neighbours_on_board(width: usize, height: usize, p: Position, q: Position)
    requires
        neighbours(width, height, p).contains(q),
    ensures
        in_bounds(width, height, q),
        q != p,
        adjacent(p, q),
{
}

/// Every cell of the board that touches `p` is among its neighbours.
pub proof fn lemma_neighbours_complete(width: usize, height: usize, p: Position, q: Position)
    requires
        in_bounds(width, height, q),
        adjacent(p, q),
    ensures
        neighbours(width, height, p).contains(q),
{
}

/// On a board of at least two columns and two rows, a corner cell has three
/// neighbours, any other cell on the border has five, and a cell inside has
/// eight.
pub proof fn lemma_neighbour_count(width: usize, height: usize, p: Position)
    requires
        width >= 2,
        height >= 2,
        in_bounds(width, height, p),
    ensures
        neighbours(width, height, p).len() == if on_border(p.0, width) && on_border(p.1, height) {
            3nat
        } else if on_border(p.0, width) || on_border(p.1, height) {
            5nat
        } else {
            8nat
        },
{
    lemma_neighbours_by_direction(width, height, p);
}

/// Every cell of a board of the given size.
pub open spec fn board_cells(width: usize, height: usize) -> Set<Position> {
    Set::new(|p: Position| in_bounds(width, height, p))
}

/// The first `rows` cells of column `x`.
spec fn column(x: usize, rows: usize) -> Set<Position> {
    Set::new(|p: Position| p.0 == x && p.1 < rows)
}

proof fn lemma_column_len(x: usize, rows: usize)
    ensures
        column(x, rows).finite(),
        column(x, rows).len() == rows,
    decreases rows,
{
    if rows == 0 {
        assert(column(x, rows) =~= Set::empty());
    } else {
        let shorter = (rows - 1) as usize;
        lemma_column_len(x, shorter);
        assert(column(x, rows) =~= column(x, shorter).insert((x, shorter)));
    }
}

/// A board has `width * height` cells.
pub proof fn lemma_board_cells_len(width: usize, height: usize)
    ensures
        board_cells(width, height).finite(),
        board_cells(width, height).len() == width * height,
    decreases width,
{
    if width == 0 {
        assert(board_cells(width, height) =~= Set::empty());
    } else {
        let narrower = (width - 1) as usize;
        lemma_board_cells_len(narrower, height);
        lemma_column_len(narrower, height);
        let left = board_cells(narrower, height);
        let last = column(narrower, height);
        assert(board_cells(width, height) =~= left + last);
        assert(left.disjoint(last));
        vstd::set_lib::lemma_set_disjoint_lens(left, last);
        assert(narrower * height + height == width * height) by (nonlinear_arith)
            requires
                narrower + 1 == width,
        ;
    }
}

/// A finite set with fewer members than the board has cells leaves a cell of
/// the board out.
pub proof fn lemma_room_left(width: usize, height: usize, taken: Set<Position>)
    requires
        taken.finite(),
        taken.len() < width * height,
    ensures
        exists|p: Position| in_bounds(width, height, p) && !taken.contains(p),
{
    lemma_board_cells_len(width, height);
    if forall|p: Position| in_bounds(width, height, p) ==> #[trigger] taken.contains(p) {
        assert(board_cells(width, height).subset_of(taken));
        vstd::set_lib::lemma_len_subset(board_cells(width, height), taken);
    }
}

/// A finite set of cells of the board has at most as many members as the
/// board has cells.
pub proof fn lemma_fits_board(width: usize, height: usize, cells: Set<Position>)
    requires
        forall|p: Position| #[trigger] cells.contains(p) ==> in_bounds(width, height, p),
    ensures
        cells.finite(),
        cells.len() <= width * height,
{
    lemma_board_cells_len(width, height);
    assert(cells.subset_of(board_cells(width, height)));
    vstd::set_lib::lemma_len_subset(cells, board_cells(width, height));
}

} // verus!
