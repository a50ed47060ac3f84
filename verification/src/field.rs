//! The layout of the mines, and how it is filled.

use crate::grid::{in_bounds, lemma_room_left, precedes, Position};
use crate::keys::{cells, key, lemma_cells_empty, lemma_cells_insert};
use crate::model::Layout;
use crate::random::sample_below;
use std::collections::HashSet;
use vstd::prelude::*;

verus! {

broadcast use vstd::std_specs::hash::group_hash_axioms;

/// Why a board cannot be made.
#[derive(Debug, Clone, Copy, PartialEq, Eq, Structural)]
pub enum BoardError {
    /// The board would have no cells: its width or its height is zero.
    EmptyBoard,
    /// The mines asked for would not leave one cell of the board free.
    ImpossibleMineDensity,
}

/// The layout of the mines on a board.
#[derive(Debug)]
pub struct MineField {
    width: usize,
    height: usize,
    mines: HashSet<u128>,
}

impl View for MineField {
    type V = Layout;

    closed spec fn view(&self) -> Layout {
        Layout { width: self.width, height: self.height, mines: cells(self.mines@) }
    }
}

impl MineField {
    #[verifier::type_invariant]
    spec fn inv(&self) -> bool {
        &&& self@.wf()
        &&& self.mines@.finite()
        &&& self@.mines.len() == self.mines@.len()
    }

    /// A board of the given size without mines.
    pub fn new(width: usize, height: usize) -> (made: Result<MineField, BoardError>)
        ensures
            width == 0 || height == 0 <==> made is Err,
            made matches Err(e) ==> e == BoardError::EmptyBoard,
            made matches Ok(field) ==> field@ == Layout::empty(width, height) && field@.wf(),
    {
        if width == 0 || height == 0 {
            Err(BoardError::EmptyBoard)
        } else {
            proof {
                lemma_cells_empty();
            }
            Ok(MineField { width, height, mines: HashSet::new() })
        }
    }

    /// The number of columns.
    pub fn width(&self) -> (w: usize)
        ensures
            w == self@.width,
            self@.wf(),
    {
        proof {
            use_type_invariant(self);
        }
        self.width
    }

    /// The number of rows.
    pub fn height(&self) -> (h: usize)
        ensures
            h == self@.height,
            self@.wf(),
    {
        proof {
            use_type_invariant(self);
        }
        self.height
    }

    /// The number of mines.
    pub fn len(&self) -> (n: usize)
        ensures
            n == self@.mines.len(),
            self@.wf(),
    {
        proof {
            use_type_invariant(self);
        }
        self.mines.len()
    }

    /// Whether the cell `pos` holds a mine.
    pub fn contains(&self, pos: Position) -> (held: bool)
        ensures
            held == self@.mines.contains(pos),
            self@.wf(),
    {
        proof {
            use_type_invariant(self);
        }
        let k: u128 = key(pos);
        self.mines.contains(&k)
    }

    /// Whether a cell is left without a mine.
    pub fn has_room(&self) -> (room: bool)
        ensures
            room == self@.has_room(),
            self@.wf(),
    {
        proof {
            use_type_invariant(self);
            assert(self.width * self.height <= 0xFFFF_FFFF_FFFF_FFFF * 0xFFFF_FFFF_FFFF_FFFF)
                by (nonlinear_arith)
                requires
                    self.width <= 0xFFFF_FFFF_FFFF_FFFF,
                    self.height <= 0xFFFF_FFFF_FFFF_FFFF,
            ;
        }
        (self.mines.len() as u128) < (self.width as u128) * (self.height as u128)
    }

    /// Walks from `from` to the last cell of the board and stops at the first
    /// cell without a mine.
    fn first_free_from(&self, from: Position) -> (found: Option<Position>)
        requires
            self@.has(from),
        ensures
            found matches Some(t) ==> {
                &&& self@.has(t)
                &&& !precedes(t, from)
                &&& !self@.mines.contains(t)
                &&& forall|q: Position|
                    self@.has(q) && !precedes(q, from) && precedes(q, t)
                        ==> #[trigger] self@.mines.contains(q)
            },
            found is None ==> forall|q: Position|
                self@.has(q) && !precedes(q, from) ==> #[trigger] self@.mines.contains(q),
    {
        let mut x: usize = from.0;
        let mut y: usize = from.1;
        loop
            invariant
                self@.has((x, y)),
                !precedes((x, y), from),
                forall|q: Position|
                    self@.has(q) && !precedes(q, from) && precedes(q, (x, y))
                        ==> #[trigger] self@.mines.contains(q),
            decreases self.width - x, self.height - y,
        {
            let k: u128 = key((x, y));
            if !self.mines.contains(&k) {
                return Some((x, y));
            }
            if y + 1 < self.height {
                y = y + 1;
            } else if x + 1 < self.width {
                x = x + 1;
                y = 0;
            } else {
                return None;
            }
        }
    }

    /// Puts a mine on the first free cell of the walk that starts at `start`,
    /// goes on in walking order and after the last cell begins again at the
    /// first; returns that cell. Where `start` is free, the mine goes there.
    /// Does nothing and returns `None` if `start` is not on the board or no
    /// cell is free.
    pub fn place(&mut self, start: Position) -> (placed: Option<Position>)
        ensures
            placed is Some <==> old(self)@.has(start) && old(self)@.has_room(),
            placed matches Some(t) ==> old(self)@.first_free(start, t) && final(self)@ == old(
                self,
            )@.with_mine(t),
            placed is None ==> final(self)@ == old(self)@,
            old(self)@.has(start) && !old(self)@.mines.contains(start) ==> placed == Some(start),
            final(self)@.wf(),
    {
        proof {
            use_type_invariant(&*self);
            self@.lemma_has_room();
        }
        if start.0 >= self.width || start.1 >= self.height || !self.has_room() {
            return None;
        }
        let target: Position = match self.first_free_from(start) {
            Some(t) => t,
            None => match self.first_free_from((0, 0)) {
                Some(t) => t,
                None => {
                    // Never reached: both walks together pass every cell, and
                    // one of them is free.
                    proof {
                        lemma_room_left(self.width, self.height, self@.mines);
                        let free = choose|p: Position|
                            in_bounds(self.width, self.height, p) && !self@.mines.contains(p);
                        assert(self@.mines.contains(free));
                        assert(false);
                    }
                    start
                },
            },
        };
        let k: u128 = key(target);
        let mut mines: HashSet<u128> = HashSet::new();
        proof {
            if !self@.mines.contains(start) {
                self@.lemma_free_start_is_taken(start);
                self@.lemma_first_free_unique(start, start, target);
            }
            lemma_cells_insert(self.mines@, target);
            self@.lemma_with_mine(target);
            lemma_cells_empty();
        }
        // The set leaves the field while it grows, so that the field holds a
        // valid layout at every step.
        std::mem::swap(&mut self.mines, &mut mines);
        mines.insert(k);
        std::mem::swap(&mut self.mines, &mut mines);
        Some(target)
    }
}

/// How often in a row `generate_mines` draws again after a draw that hit a
/// mine, before it lets the mine go to the next free cell instead.
pub const REDRAWS: usize = 32;

/// Scatters `mine_count` mines over a board of the given size. Cells are
/// drawn at random; a draw that hits a free cell puts a mine there, and a
/// draw that hits a mine is drawn again. After `REDRAWS` such draws in a row
/// the mine goes to the first free cell on the walk from the cell drawn last,
/// so that the filling ends however the draws fall.
pub fn generate_mines(width: usize, height: usize, mine_count: usize) -> (field: MineField)
    requires
        mine_count < width * height,
    ensures
        field@.wf(),
        field@.width == width,
        field@.height == height,
        field@.mines.len() == mine_count,
{
    proof {
        lemma_cells_empty();
        assert(width > 0 && height > 0) by (nonlinear_arith)
            requires
                0 < width * height,
        ;
    }
    let mut field = MineField { width, height, mines: HashSet::new() };
    let mut rng = rand::thread_rng();
    let mut redraws_left: usize = REDRAWS;
    while field.len() < mine_count
        invariant
            field@.wf(),
            field@.width == width,
            field@.height == height,
            field@.mines.len() <= mine_count < width * height,
        decreases mine_count - field@.mines.len(), redraws_left,
    {
        let x: usize = sample_below(&mut rng, width);
        let y: usize = sample_below(&mut rng, height);
        if redraws_left > 0 && field.contains((x, y)) {
            redraws_left = redraws_left - 1;
        } else {
            let ghost before = field@;
            let placed = field.place((x, y));
            proof {
                before.lemma_with_mine(placed.unwrap());
            }
            redraws_left = REDRAWS;
        }
    }
    field
}

} // verus!
