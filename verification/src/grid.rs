//! The display as a matrix of cells that are lit or dark.

use vstd::prelude::*;
use crate::step::{GridBounds, Position};

verus! {

/// Why a cell could not be written.
#[derive(Clone, Copy, Debug, PartialEq, Eq, Structural)]
pub enum GridError {
    /// The position names no cell of the grid.
    OutOfBounds,
}

/// A matrix of binary cells.  Its view is the set of cells that are lit.
#[derive(Debug)]
pub struct Grid {
    bounds: GridBounds,
    cells: Vec<Vec<bool>>,
}

impl View for Grid {
    type V = Set<Position>;

    open spec fn view(&self) -> Set<Position> {
        Set::new(|p: Position| self.lit(p))
    }
}

impl Grid {
    /// The matrix has as many rows, and each row as many cells, as the
    /// bounds say.
    pub closed spec fn wf(&self) -> bool {
        &&& self.cells@.len() == self.bounds.rows
        &&& forall|r: int| 0 <= r < self.cells@.len() ==> (#[trigger] self.cells@[r])@.len() == self.bounds.cols
    }

    /// The extent of the grid.
    pub closed spec fn spec_bounds(&self) -> GridBounds {
        self.bounds
    }

    /// Whether `pos` is a cell of the grid and is lit.
    pub closed spec fn lit(&self, pos: Position) -> bool {
        self.bounds.contains(pos) && self.cells@[pos.row as int]@[pos.col as int]
    }

    /// Only cells of the grid are ever lit.
    pub proof fn lemma_lit_cells_are_in_bounds(&self)
        ensures
            forall|p: Position| self@.contains(p) ==> self.spec_bounds().contains(p),
    {
    }

    /// Makes a grid of `rows` by `cols` cells, all dark.
    pub fn new(rows: usize, cols: usize) -> (g: Grid)
        ensures
            g.wf(),
            g.spec_bounds() == (GridBounds { rows, cols }),
            g@ == Set::<Position>::empty(),
    {
        let mut cells: Vec<Vec<bool>> = Vec::new();
        let mut r: usize = 0;
        while r < rows
            invariant
                r <= rows,
                cells@.len() == r,
                forall|i: int| 0 <= i < r ==> (#[trigger] cells@[i])@.len() == cols,
                forall|i: int, j: int| 0 <= i < r && 0 <= j < cols ==> !(#[trigger] cells@[i]@[j]),
            decreases rows - r,
        {
            let mut row: Vec<bool> = Vec::new();
            let mut c: usize = 0;
            while c < cols
                invariant
                    c <= cols,
                    row@.len() == c,
                    forall|j: int| 0 <= j < c ==> !(#[trigger] row@[j]),
                decreases cols - c,
            {
                row.push(false);
                c = c + 1;
            }
            cells.push(row);
            r = r + 1;
        }
        let g = Grid { bounds: GridBounds { rows, cols }, cells };
        assert(g@ =~= Set::<Position>::empty());
        g
    }

    /// The extent of the grid.
    pub fn bounds(&self) -> (b: GridBounds)
        ensures
            b == self.spec_bounds(),
    {
        self.bounds
    }

    /// Reads one cell: `Some(true)` for a lit cell, `Some(false)` for a dark
    /// one, `None` where `pos` is outside the grid.
    pub fn cell(&self, pos: Position) -> (r: Option<bool>)
        requires
            self.wf(),
        ensures
            r == if self.spec_bounds().contains(pos) {
                Some(self@.contains(pos))
            } else {
                None
            },
    {
        if pos.row < self.bounds.rows && pos.col < self.bounds.cols {
            Some(self.cells[pos.row][pos.col])
        } else {
            None
        }
    }

    /// Lights or darkens one cell.  A position outside the grid is refused
    /// and leaves the grid as it was.
    pub fn set_cell(&mut self, pos: Position, lit: bool) -> (r: Result<(), GridError>)
        requires
            old(self).wf(),
        ensures
            final(self).wf(),
            final(self).spec_bounds() == old(self).spec_bounds(),
            old(self).spec_bounds().contains(pos) ==> r is Ok && final(self)@ == (if lit {
                old(self)@.insert(pos)
            } else {
                old(self)@.remove(pos)
            }),
            !old(self).spec_bounds().contains(pos) ==> r == Err::<(), GridError>(
                GridError::OutOfBounds,
            ) && final(self)@ == old(self)@,
    {
        if pos.row < self.bounds.rows && pos.col < self.bounds.cols {
            self.cells[pos.row][pos.col] = lit;
            assert(final(self)@ =~= (if lit {
                old(self)@.insert(pos)
            } else {
                old(self)@.remove(pos)
            }));
            Ok(())
        } else {
            Err(GridError::OutOfBounds)
        }
    }

    /// Copies the grid out as rows of cells, `true` for lit.  The copy has
    /// the shape of the grid and shares nothing with it.
    pub fn snapshot(&self) -> (rows: Vec<Vec<bool>>)
        requires
            self.wf(),
        ensures
            rows@.len() == self.spec_bounds().rows,
            forall|r: int| 0 <= r < rows@.len() ==> (#[trigger] rows@[r])@.len() == self.spec_bounds().cols,
            forall|r: int, c: int|
                0 <= r < self.spec_bounds().rows && 0 <= c < self.spec_bounds().cols ==> (#[trigger] rows@[r]@[c])
                    == self@.contains(Position { row: r as usize, col: c as usize }),
    {
        let mut rows: Vec<Vec<bool>> = Vec::new();
        let mut r: usize = 0;
        while r < self.bounds.rows
            invariant
                self.wf(),
                r <= self.bounds.rows,
                rows@.len() == r,
                forall|i: int| 0 <= i < r ==> (#[trigger] rows@[i])@.len() == self.bounds.cols,
                forall|i: int, j: int|
                    0 <= i < r && 0 <= j < self.bounds.cols ==> (#[trigger] rows@[i]@[j]) == self.cells@[i]@[j],
            decreases self.bounds.rows - r,
        {
            let mut row: Vec<bool> = Vec::new();
            let mut c: usize = 0;
            while c < self.bounds.cols
                invariant
                    self.wf(),
                    r < self.bounds.rows,
                    c <= self.bounds.cols,
                    row@.len() == c,
                    forall|j: int| 0 <= j < c ==> (#[trigger] row@[j]) == self.cells@[r as int]@[j],
                decreases self.bounds.cols - c,
            {
                row.push(self.cells[r][c]);
                c = c + 1;
            }
            rows.push(row);
            r = r + 1;
        }
        rows
    }
}

} // verus!
