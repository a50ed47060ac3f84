//! The mathematical state of a game and the moves on it.

use crate::grid::{
    board_cells, in_bounds, lemma_board_cells_len, lemma_fits_board, lemma_room_left, neighbours,
    precedes, Position,
};
use vstd::prelude::*;

verus! {

/// What opening a cell reveals.
#[derive(Debug, Clone, Copy, PartialEq, Eq, Structural)]
pub enum OpenResult {
    /// The cell holds a mine.
    Mine,
    /// The cell is safe; the number says how many of its neighbours hold a mine.
    NoMine(u8),
}

/// Where the mines lie on a board.
pub struct Layout {
    pub width: usize,
    pub height: usize,
    pub mines: Set<Position>,
}

impl Layout {
    /// Whether the board has the cell `p`.
    pub open spec fn has(self, p: Position) -> bool {
        in_bounds(self.width, self.height, p)
    }

    /// The board has cells, and every mine lies on one of them.
    pub open spec fn wf(self) -> bool {
        &&& self.width > 0
        &&& self.height > 0
        &&& self.mines.finite()
        &&& forall|p: Position| #[trigger] self.mines.contains(p) ==> self.has(p)
    }

    /// A board of the given size without mines.
    pub open spec fn empty(width: usize, height: usize) -> Layout {
        Layout { width, height, mines: Set::empty() }
    }

    /// Whether a cell is left without a mine.
    pub open spec fn has_room(self) -> bool {
        self.mines.len() < self.width * self.height
    }

    /// Whether the walk that starts at `start`, goes on in walking order and
    /// after the last cell begins again at the first, passes `q` before it
    /// comes to `target`.
    pub open spec fn passed(start: Position, target: Position, q: Position) -> bool {
        if precedes(target, start) {
            !precedes(q, start) || precedes(q, target)
        } else {
            !precedes(q, start) && precedes(q, target)
        }
    }

    /// Whether `target` is the first cell without a mine on the walk from
    /// `start`.
    pub open spec fn first_free(self, start: Position, target: Position) -> bool {
        &&& self.has(target)
        &&& !self.mines.contains(target)
        &&& forall|q: Position|
            self.has(q) && Self::passed(start, target, q) ==> #[trigger] self.mines.contains(q)
    }

    /// The layout with one more mine, on `p`.
    pub open spec fn with_mine(self, p: Position) -> Layout {
        Layout { mines: self.mines.insert(p), ..self }
    }

    /// The walk from a cell comes to one free cell first, not to two.
    pub proof fn lemma_first_free_unique(self, start: Position, a: Position, b: Position)
        requires
            self.first_free(start, a),
            self.first_free(start, b),
        ensures
            a == b,
    {
        if a != b {
            assert(precedes(a, b) || precedes(b, a));
            assert(Self::passed(start, a, b) || Self::passed(start, b, a));
        }
    }

    /// A free cell is itself the first free cell on the walk from it.
    pub proof fn lemma_free_start_is_taken(self, start: Position)
        requires
            self.has(start),
            !self.mines.contains(start),
        ensures
            self.first_free(start, start),
    {
    }

    /// A board holds at most as many mines as it has cells.
    pub proof fn lemma_mines_fit(self)
        requires
            self.wf(),
        ensures
            self.mines.len() <= self.width * self.height,
    {
        lemma_fits_board(self.width, self.height, self.mines);
    }

    /// Fewer mines than cells is the same as a cell without a mine.
    pub proof fn lemma_has_room(self)
        requires
            self.wf(),
        ensures
            self.has_room() <==> exists|p: Position| self.has(p) && !self.mines.contains(p),
    {
        if self.has_room() {
            lemma_room_left(self.width, self.height, self.mines);
            let free = choose|p: Position|
                in_bounds(self.width, self.height, p) && !self.mines.contains(p);
            assert(self.has(free) && !self.mines.contains(free));
        }
        if exists|p: Position| self.has(p) && !self.mines.contains(p) {
            let free = choose|p: Position| self.has(p) && !self.mines.contains(p);
            let all = board_cells(self.width, self.height);
            lemma_board_cells_len(self.width, self.height);
            assert(all.contains(free));
            assert(self.mines.subset_of(all.remove(free)));
            vstd::set_lib::lemma_len_subset(self.mines, all.remove(free));
            assert(self.has_room());
        }
    }

    /// Placing a mine on a free cell of the board keeps the layout well formed
    /// and adds one to the number of mines.
    pub proof fn lemma_with_mine(self, p: Position)
        requires
            self.wf(),
            self.has(p),
            !self.mines.contains(p),
        ensures
            self.with_mine(p).wf(),
            self.with_mine(p).mines.len() == self.mines.len() + 1,
    {
    }
}

/// The decimal digit for a number below ten.
pub open spec fn digit(n: nat) -> char {
    if n == 0 {
        '0'
    } else if n == 1 {
        '1'
    } else if n == 2 {
        '2'
    } else if n == 3 {
        '3'
    } else if n == 4 {
        '4'
    } else if n == 5 {
        '5'
    } else if n == 6 {
        '6'
    } else if n == 7 {
        '7'
    } else if n == 8 {
        '8'
    } else {
        '9'
    }
}

/// How many of `cells`, counted one by one, hold a mine.
pub open spec fn mined_among(cells: Seq<Position>, mines: Set<Position>) -> nat
    decreases cells.len(),
{
    if cells.len() == 0 {
        0
    } else {
        let rest = mined_among(cells.drop_last(), mines);
        if mines.contains(cells.last()) {
            rest + 1
        } else {
            rest
        }
    }
}

/// Counting the mines among cells that are listed once each gives the number
/// of listed cells that hold a mine.
pub proof fn lemma_mined_among(cells: Seq<Position>, mines: Set<Position>)
    requires
        cells.no_duplicates(),
    ensures
        cells.to_set().intersect(mines).finite(),
        mined_among(cells, mines) == cells.to_set().intersect(mines).len(),
    decreases cells.len(),
{
    if cells.len() == 0 {
        assert(cells.to_set().intersect(mines) =~= Set::empty());
    } else {
        let front = cells.drop_last();
        let last = cells.last();
        lemma_mined_among(front, mines);
        assert(!front.to_set().contains(last)) by {
            if front.to_set().contains(last) {
                let i = choose|i: int| 0 <= i < front.len() && front[i] == last;
                assert(cells[i] == cells[cells.len() - 1]);
            }
        }
        assert(cells.to_set() =~= front.to_set().insert(last)) by {
            assert forall|q: Position| cells.to_set().contains(q) implies front.to_set().insert(
                last,
            ).contains(q) by {
                let i = choose|i: int| 0 <= i < cells.len() && cells[i] == q;
                if i < front.len() {
                    assert(front[i] == q);
                }
            }
            assert forall|q: Position| front.to_set().insert(last).contains(
                q,
            ) implies cells.to_set().contains(q) by {
                if q == last {
                    assert(cells[cells.len() - 1] == q);
                } else {
                    let i = choose|i: int| 0 <= i < front.len() && front[i] == q;
                    assert(cells[i] == q);
                }
            }
        }
        if mines.contains(last) {
            let found = front.to_set().intersect(mines);
            assert(cells.to_set().intersect(mines) =~= found.insert(last));
        } else {
            assert(cells.to_set().intersect(mines) =~= front.to_set().intersect(mines));
        }
    }
}

/// The state of a game: the layout of the mines, and the cells that the player
/// has opened and flagged.
pub struct Board {
    pub width: usize,
    pub height: usize,
    pub mines: Set<Position>,
    pub opened: Set<Position>,
    pub flagged: Set<Position>,
}

impl Board {
    /// Whether the board has the cell `p`.
    pub open spec fn has(self, p: Position) -> bool {
        in_bounds(self.width, self.height, p)
    }

    /// Where the mines lie.
    pub open spec fn layout(self) -> Layout {
        Layout { width: self.width, height: self.height, mines: self.mines }
    }

    /// The mines, the opened cells and the flagged cells all lie on the board,
    /// and no cell is both opened and flagged.
    pub open spec fn wf(self) -> bool {
        &&& self.layout().wf()
        &&& self.opened.finite()
        &&& self.flagged.finite()
        &&& forall|p: Position| #[trigger] self.opened.contains(p) ==> self.has(p)
        &&& forall|p: Position| #[trigger] self.flagged.contains(p) ==> self.has(p)
        &&& self.opened.disjoint(self.flagged)
    }

    /// The game before the first move: nothing opened, nothing flagged.
    pub open spec fn fresh(layout: Layout) -> Board {
        Board {
            width: layout.width,
            height: layout.height,
            mines: layout.mines,
            opened: Set::empty(),
            flagged: Set::empty(),
        }
    }

    /// Whether this is a game before the first move, on a board of the given
    /// size with `mine_count` mines on it.
    pub open spec fn is_new(self, width: usize, height: usize, mine_count: usize) -> bool {
        &&& self.wf()
        &&& self.width == width
        &&& self.height == height
        &&& self.mines.len() == mine_count
        &&& self.opened == Set::<Position>::empty()
        &&& self.flagged == Set::<Position>::empty()
    }

    /// How many neighbours of `p` hold a mine.
    pub open spec fn count_mines(self, p: Position) -> nat {
        neighbours(self.width, self.height, p).intersect(self.mines).len()
    }

    /// Whether `p` can be opened: it lies on the board and carries no flag.
    pub open spec fn can_open(self, p: Position) -> bool {
        self.has(p) && !self.flagged.contains(p)
    }

    /// The state after the player asks to open `p`.
    pub open spec fn open(self, p: Position) -> Board {
        if self.can_open(p) {
            Board { opened: self.opened.insert(p), ..self }
        } else {
            self
        }
    }

    /// What the player is told on asking to open `p`: nothing if the request
    /// is turned down, else what the cell holds.
    pub open spec fn open_result(self, p: Position) -> Option<OpenResult> {
        if !self.can_open(p) {
            None
        } else if self.mines.contains(p) {
            Some(OpenResult::Mine)
        } else {
            Some(OpenResult::NoMine(self.count_mines(p) as u8))
        }
    }

    /// Whether the flag on `p` can be changed: `p` lies on the board and has
    /// not been opened.
    pub open spec fn can_flag(self, p: Position) -> bool {
        self.has(p) && !self.opened.contains(p)
    }

    /// The state after the player toggles the flag on `p`.
    pub open spec fn toggle_flag(self, p: Position) -> Board {
        if !self.can_flag(p) {
            self
        } else if self.flagged.contains(p) {
            Board { flagged: self.flagged.remove(p), ..self }
        } else {
            Board { flagged: self.flagged.insert(p), ..self }
        }
    }

    /// How the cell `p` is shown, followed by a blank: `F` for a flag, `#`
    /// for a cell not yet opened, `B` for an opened mine, and for any other
    /// opened cell the number of mines around it.
    pub open spec fn token(self, p: Position) -> Seq<char> {
        if self.flagged.contains(p) {
            seq!['F', ' ']
        } else if !self.opened.contains(p) {
            seq!['#', ' ']
        } else if self.mines.contains(p) {
            seq!['B', ' ']
        } else {
            seq![digit(self.count_mines(p)), ' ']
        }
    }

    /// The first `columns` cells of row `y`, as shown.
    pub open spec fn row_text(self, y: usize, columns: nat) -> Seq<char>
        decreases columns,
    {
        if columns == 0 {
            Seq::empty()
        } else {
            let x = (columns - 1) as usize;
            self.row_text(y, (columns - 1) as nat) + self.token((x, y))
        }
    }

    /// The first `rows` rows, as shown: each row in full, then a line feed.
    pub open spec fn rows_text(self, rows: nat) -> Seq<char>
        decreases rows,
    {
        if rows == 0 {
            Seq::empty()
        } else {
            let y = (rows - 1) as usize;
            self.rows_text((rows - 1) as nat) + self.row_text(y, self.width as nat) + seq!['\n']
        }
    }

    /// The board as text: one line for each row, from the first row down, and
    /// in each line the cells from the first column on.
    pub open spec fn render(self) -> Seq<char> {
        self.rows_text(self.height as nat)
    }

    /// The text has two characters for each cell and a line feed for each
    /// row.
    pub proof fn lemma_render_len(self)
        ensures
            self.render().len() == self.height * (2 * self.width + 1),
    {
        self.lemma_rows_text_len(self.height as nat);
    }

    proof fn lemma_row_text_len(self, y: usize, columns: nat)
        ensures
            self.row_text(y, columns).len() == 2 * columns,
        decreases columns,
    {
        if columns > 0 {
            self.lemma_row_text_len(y, (columns - 1) as nat);
        }
    }

    proof fn lemma_rows_text_len(self, rows: nat)
        ensures
            self.rows_text(rows).len() == rows * (2 * self.width + 1),
        decreases rows,
    {
        let line = 2 * self.width + 1;
        if rows > 0 {
            let y = (rows - 1) as usize;
            self.lemma_rows_text_len((rows - 1) as nat);
            self.lemma_row_text_len(y, self.width as nat);
            assert((rows - 1) * line + line == rows * line) by (nonlinear_arith);
        } else {
            assert(rows * line == 0) by (nonlinear_arith)
                requires
                    rows == 0,
            ;
        }
    }

    /// A fresh game on a well-formed layout is well formed.
    pub proof fn lemma_fresh_wf(layout: Layout)
        requires
            layout.wf(),
        ensures
            Self::fresh(layout).wf(),
            Self::fresh(layout).layout() == layout,
    {
    }

    /// Moves keep the state well formed and never touch the size of the board
    /// or the mines; opened cells stay opened.
    pub proof fn lemma_moves_preserve(self, p: Position)
        requires
            self.wf(),
        ensures
            self.open(p).wf(),
            self.toggle_flag(p).wf(),
            self.open(p).layout() == self.layout(),
            self.toggle_flag(p).layout() == self.layout(),
            self.opened.subset_of(self.open(p).opened),
            self.toggle_flag(p).opened == self.opened,
            self.open(p).flagged == self.flagged,
    {
    }

    /// The number of mines around a cell depends on the size of the board and
    /// on the mines alone, not on what is opened or flagged.
    pub proof fn lemma_count_ignores_moves(self, other: Board, p: Position)
        requires
            self.layout() == other.layout(),
        ensures
            self.count_mines(p) == other.count_mines(p),
    {
    }

    /// A cell has between no and eight mines around it.
    pub proof fn lemma_count_bounded(self, p: Position)
        ensures
            self.count_mines(p) <= 8,
    {
        let around = neighbours(self.width, self.height, p);
        crate::grid::lemma_neighbours_bounded(self.width, self.height, p);
        vstd::set_lib::lemma_len_intersect(around, self.mines);
    }

    /// Opening a cell a second time changes nothing and gives the same answer.
    pub proof fn lemma_open_idempotent(self, p: Position)
        ensures
            self.open(p).open(p) == self.open(p),
            self.open(p).open_result(p) == self.open_result(p),
    {
        if self.can_open(p) {
            assert(self.opened.insert(p).insert(p) =~= self.opened.insert(p));
        }
    }

    /// Toggling a flag twice restores the state.
    pub proof fn lemma_toggle_flag_twice(self, p: Position)
        ensures
            self.toggle_flag(p).toggle_flag(p).flagged.contains(p) == self.flagged.contains(p),
            self.toggle_flag(p).toggle_flag(p) == self,
    {
        if self.can_flag(p) {
            if self.flagged.contains(p) {
                assert(self.flagged.remove(p).insert(p) =~= self.flagged);
            } else {
                assert(self.flagged.insert(p).remove(p) =~= self.flagged);
            }
        }
    }

    /// Once a cell has been opened, toggling its flag has no effect.
    pub proof fn lemma_opened_takes_no_flag(self, p: Position)
        requires
            self.open_result(p) is Some,
        ensures
            self.open(p).opened.contains(p),
            self.open(p).toggle_flag(p) == self.open(p),
    {
    }

    /// While a cell carries a flag, a request to open it is turned down and
    /// changes nothing.
    pub proof fn lemma_flagged_stays_closed(self, p: Position)
        requires
            self.toggle_flag(p).flagged.contains(p),
        ensures
            self.toggle_flag(p).open_result(p) is None,
            self.toggle_flag(p).open(p) == self.toggle_flag(p),
    {
    }
}

} // verus!
