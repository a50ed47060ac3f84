//! The game: a board with its mines, and the player's moves on it.

use crate::field::{generate_mines, BoardError, MineField};
use crate::grid::{
    ascending, lemma_ascending_is_duplicate_free, neighbours, neighbours_of, Position,
};
use crate::keys::{cells, key, lemma_cells_empty, lemma_cells_insert, lemma_cells_remove};
use crate::model::{digit, lemma_mined_among, mined_among, Board, OpenResult};
use std::collections::HashSet;
use vstd::prelude::*;
use vstd::string::*;

verus! {

broadcast use vstd::std_specs::hash::group_hash_axioms;

/// A game of Minesweeper: the mines, fixed when the game is made, and the
/// cells that the player has opened and flagged since.
#[derive(Debug)]
pub struct Minesweeper {
    width: usize,
    height: usize,
    open_fields: HashSet<u128>,
    mines: MineField,
    flags: HashSet<u128>,
}

impl View for Minesweeper {
    type V = Board;

    closed spec fn view(&self) -> Board {
        Board {
            width: self.width,
            height: self.height,
            mines: self.mines@.mines,
            opened: cells(self.open_fields@),
            flagged: cells(self.flags@),
        }
    }
}

impl Minesweeper {
    #[verifier::type_invariant]
    spec fn inv(&self) -> bool {
        &&& self@.wf()
        &&& self@.layout() == self.mines@
    }

    /// A new game on a board of the given size, with `mine_count` mines
    /// scattered at random. At least one cell has to stay free.
    pub fn new(width: usize, height: usize, mine_count: usize) -> (game: Minesweeper)
        requires
            mine_count < width * height,
        ensures
            game@.is_new(width, height, mine_count),
    {
        Self::with_field(generate_mines(width, height, mine_count))
    }

    /// A new game as `new` makes it, or the reason why there cannot be one:
    /// the board would have no cells, or the mines would leave no cell free.
    pub fn try_new(width: usize, height: usize, mine_count: usize) -> (made: Result<
        Minesweeper,
        BoardError,
    >)
        ensures
            made is Err <==> mine_count >= width * height,
            made matches Err(e) ==> e == if width == 0 || height == 0 {
                BoardError::EmptyBoard
            } else {
                BoardError::ImpossibleMineDensity
            },
            made matches Ok(game) ==> game@.is_new(width, height, mine_count),
    {
        if width == 0 || height == 0 {
            assert(width * height == 0) by (nonlinear_arith)
                requires
                    width == 0 || height == 0,
            ;
            return Err(BoardError::EmptyBoard);
        }
        assert(width * height <= 0xFFFF_FFFF_FFFF_FFFF * 0xFFFF_FFFF_FFFF_FFFF) by (nonlinear_arith)
            requires
                width <= 0xFFFF_FFFF_FFFF_FFFF,
                height <= 0xFFFF_FFFF_FFFF_FFFF,
        ;
        if (mine_count as u128) >= (width as u128) * (height as u128) {
            return Err(BoardError::ImpossibleMineDensity);
        }
        Ok(Self::new(width, height, mine_count))
    }

    /// A new game on the given layout of mines.
    pub fn with_field(field: MineField) -> (game: Minesweeper)
        ensures
            game@ == Board::fresh(field@),
            game@.wf(),
    {
        let width: usize = field.width();
        let height: usize = field.height();
        proof {
            lemma_cells_empty();
            Board::lemma_fresh_wf(field@);
        }
        Minesweeper {
            width,
            height,
            open_fields: HashSet::new(),
            mines: field,
            flags: HashSet::new(),
        }
    }

    /// The number of columns.
    pub fn width(&self) -> (w: usize)
        ensures
            w == self@.width,
    {
        self.width
    }

    /// The number of rows.
    pub fn height(&self) -> (h: usize)
        ensures
            h == self@.height,
    {
        self.height
    }

    /// The number of mines on the board.
    pub fn mine_count(&self) -> (n: usize)
        ensures
            n == self@.mines.len(),
    {
        self.mines.len()
    }

    /// Whether the cell `position` holds a mine.
    pub fn is_mine(&self, position: Position) -> (held: bool)
        ensures
            held == self@.mines.contains(position),
    {
        self.mines.contains(position)
    }

    /// Whether the cell `position` has been opened.
    pub fn is_open(&self, position: Position) -> (opened: bool)
        ensures
            opened == self@.opened.contains(position),
    {
        let k: u128 = key(position);
        self.open_fields.contains(&k)
    }

    /// Whether the cell `position` carries a flag.
    pub fn is_flagged(&self, position: Position) -> (flagged: bool)
        ensures
            flagged == self@.flagged.contains(position),
    {
        let k: u128 = key(position);
        self.flags.contains(&k)
    }

    /// Whether the board has the cell `position`.
    pub fn has(&self, position: Position) -> (on_board: bool)
        ensures
            on_board == self@.has(position),
    {
        position.0 < self.width && position.1 < self.height
    }

    /// The cells of the board that touch `position`, column by column and
    /// within a column row by row.
    pub fn iter_neighbours(&self, position: Position) -> (around: Vec<Position>)
        ensures
            ascending(around@),
            around@.to_set() == neighbours(self@.width, self@.height, position),
            around@.len() == neighbours(self@.width, self@.height, position).len(),
            around@.len() <= 8,
    {
        neighbours_of(self.width, self.height, position)
    }

    /// How many of the cells that touch `position` hold a mine. What is
    /// opened or flagged plays no part.
    pub fn count_mines(&self, position: Position) -> (count: u8)
        ensures
            count == self@.count_mines(position),
            count <= 8,
    {
        let around = self.iter_neighbours(position);
        let mut count: u8 = 0;
        let mut i: usize = 0;
        while i < around.len()
            invariant
                i <= around.len() <= 8,
                count <= i,
                count == mined_among(around@.take(i as int), self@.mines),
            decreases around.len() - i,
        {
            proof {
                let upto = around@.take(i + 1);
                assert(upto.drop_last() =~= around@.take(i as int));
                assert(upto.last() == around@[i as int]);
            }
            if self.mines.contains(around[i]) {
                count = count + 1;
            }
            i = i + 1;
        }
        proof {
            assert(around@.take(i as int) =~= around@);
            lemma_ascending_is_duplicate_free(around@);
            lemma_mined_among(around@, self@.mines);
        }
        count
    }

    /// Opens the cell `position`. A cell that carries a flag, or that the
    /// board does not have, stays as it is, and the answer is `None`.
    /// Otherwise the cell is opened, if it was not already, and the answer
    /// says whether it holds a mine and, if not, how many of its neighbours
    /// do.
    pub fn open(&mut self, position: Position) -> (result: Option<OpenResult>)
        ensures
            final(self)@ == old(self)@.open(position),
            result == old(self)@.open_result(position),
            final(self)@.wf(),
    {
        proof {
            use_type_invariant(&*self);
        }
        if !self.has(position) {
            return None;
        }
        let k: u128 = key(position);
        if self.flags.contains(&k) {
            return None;
        }
        let mut opened: HashSet<u128> = HashSet::new();
        proof {
            lemma_cells_empty();
            lemma_cells_insert(self.open_fields@, position);
        }
        // The set leaves the game while it grows, so that the game holds a
        // valid state at every step.
        std::mem::swap(&mut self.open_fields, &mut opened);
        opened.insert(k);
        std::mem::swap(&mut self.open_fields, &mut opened);
        if self.mines.contains(position) {
            Some(OpenResult::Mine)
        } else {
            Some(OpenResult::NoMine(self.count_mines(position)))
        }
    }

    /// Sets a flag on the cell `position`, or takes it off if the cell has
    /// one. A cell that has been opened, or that the board does not have,
    /// stays as it is.
    pub fn toggle_flag(&mut self, position: Position)
        ensures
            final(self)@ == old(self)@.toggle_flag(position),
            final(self)@.wf(),
    {
        proof {
            use_type_invariant(&*self);
        }
        if !self.has(position) {
            return;
        }
        let k: u128 = key(position);
        if self.open_fields.contains(&k) {
            return;
        }
        let mut flags: HashSet<u128> = HashSet::new();
        proof {
            lemma_cells_empty();
            lemma_cells_insert(self.flags@, position);
            lemma_cells_remove(self.flags@, position);
        }
        // The set leaves the game while it changes, so that the game holds a
        // valid state at every step.
        std::mem::swap(&mut self.flags, &mut flags);
        if flags.contains(&k) {
            flags.remove(&k);
        } else {
            flags.insert(k);
        }
        std::mem::swap(&mut self.flags, &mut flags);
    }

    /// The board as text, row by row. Each cell is shown by one character and
    /// a blank after it: `F` for a flag, `#` for a cell not yet opened, `B`
    /// for an opened mine, else the number of mines around the cell. Each
    /// row ends with a line feed.
    pub fn render(&self) -> (text: String)
        ensures
            text@ == self@.render(),
    {
        let width: usize = self.width();
        let height: usize = self.height();
        let mut text = String::new();
        let mut y: usize = 0;
        while y < height
            invariant
                width == self@.width,
                height == self@.height,
                y <= height,
                text@ == self@.rows_text(y as nat),
            decreases height - y,
        {
            let mut x: usize = 0;
            while x < width
                invariant
                    width == self@.width,
                    y < height == self@.height,
                    x <= width,
                    text@ == self@.rows_text(y as nat) + self@.row_text(y, x as nat),
                decreases width - x,
            {
                let shown: &str = self.cell_text((x, y));
                text.append(shown);
                assert(text@ == self@.rows_text(y as nat) + self@.row_text(y, (x + 1) as nat)) by {
                    assert(text@ =~= self@.rows_text(y as nat) + (self@.row_text(y, x as nat)
                        + self@.token((x, y))));
                }
                x = x + 1;
            }
            proof {
                reveal_strlit("\n");
                assert("\n"@ =~= seq!['\n']);
            }
            text.append("\n");
            y = y + 1;
        }
        text
    }

    /// How one cell is shown.
    fn cell_text(&self, position: Position) -> (shown: &'static str)
        ensures
            shown@ == self@.token(position),
    {
        proof {
            reveal_strlit("F ");
            reveal_strlit("# ");
            reveal_strlit("B ");
            assert("F "@ =~= seq!['F', ' ']);
            assert("# "@ =~= seq!['#', ' ']);
            assert("B "@ =~= seq!['B', ' ']);
        }
        if self.is_flagged(position) {
            "F "
        } else if !self.is_open(position) {
            "# "
        } else if self.is_mine(position) {
            "B "
        } else {
            digit_text(self.count_mines(position))
        }
    }
}

/// A number up to eight as its digit, with a blank after it.
fn digit_text(n: u8) -> (shown: &'static str)
    requires
        n <= 8,
    ensures
        shown@ == seq![digit(n as nat), ' '],
{
    proof {
        reveal_strlit("0 ");
        reveal_strlit("1 ");
        reveal_strlit("2 ");
        reveal_strlit("3 ");
        reveal_strlit("4 ");
        reveal_strlit("5 ");
        reveal_strlit("6 ");
        reveal_strlit("7 ");
        reveal_strlit("8 ");
    }
    let shown: &'static str = if n == 0 {
        "0 "
    } else if n == 1 {
        "1 "
    } else if n == 2 {
        "2 "
    } else if n == 3 {
        "3 "
    } else if n == 4 {
        "4 "
    } else if n == 5 {
        "5 "
    } else if n == 6 {
        "6 "
    } else if n == 7 {
        "7 "
    } else {
        "8 "
    };
    assert(shown@ =~= seq![digit(n as nat), ' ']);
    shown
}

} // verus!
