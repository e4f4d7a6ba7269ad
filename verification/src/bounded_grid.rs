use vstd::prelude::*;
use crate::dense_grid::{table_board, DenseGrid};
use crate::grid::{representable, Board, Grid, RowCol};
use crate::rle::{seeded, Rle};

verus! {

/// A board addressed by line `x` and column `y`, which a pattern fills
/// from the top left corner: the board is exactly as large as the pattern.
#[derive(Clone, Debug)]
pub struct BoundedGrid {
    cells: DenseGrid,
}

impl BoundedGrid {
    /// The board that the grid holds.
    pub closed spec fn board(&self) -> Board {
        self.cells.board()
    }

    /// The invariant of the representation.
    pub closed spec fn wf(&self) -> bool {
        self.cells.wf()
    }

    /// A well-formed grid holds a well-formed board of a size that `new`
    /// accepts.
    pub proof fn lemma_wf(&self)
        requires
            self.wf(),
        ensures
            self.board().wf(),
            representable(self.board().rows, self.board().cols),
    {
        self.cells.lemma_wf();
    }

    /// A board of dead cells.
    pub fn new(nb_lines: usize, nb_columns: usize) -> (grid: Self)
        requires
            representable(nb_lines as nat, nb_columns as nat),
        ensures
            grid.wf(),
            grid.board() == Board::empty(nb_lines as nat, nb_columns as nat),
    {
        BoundedGrid { cells: DenseGrid::new(nb_lines, nb_columns) }
    }

    /// A board two lines and two columns larger than the table `g`, which
    /// holds the cells of `g` in its top left corner and dead cells elsewhere.
    /// The first line of `g` gives the number of columns; what a longer line
    /// holds beyond that is left out.
    pub fn new_from(g: &Vec<Vec<bool>>) -> (grid: Self)
        requires
            g.len() >= 1,
            g[0].len() >= 1,
            forall|i: int| 0 <= i < g.len() ==> (#[trigger] g[i]).len() >= g[0].len(),
            representable((g.len() + 2) as nat, (g[0].len() + 2) as nat),
        ensures
            grid.wf(),
            grid.board() == table_board(g),
    {
        BoundedGrid { cells: DenseGrid::new_from(g) }
    }

    /// The board that is as large as the pattern and holds it.
    pub fn new_from_rle(rle: &Rle) -> (grid: Self)
        requires
            rle.wf(),
            representable(seeded(rle.pattern@, 0, 0).rows, seeded(rle.pattern@, 0, 0).cols),
        ensures
            grid.wf(),
            grid.board() == seeded(rle.pattern@, 0, 0),
    {
        BoundedGrid { cells: DenseGrid::new_from_rle(rle, 0, 0) }
    }

    /// Whether the cell at line `x` and column `y` is alive.
    pub fn at(&self, x: usize, y: usize) -> (alive: bool)
        requires
            self.wf(),
            self.board().contains(x as int, y as int),
        ensures
            alive == self.board().alive(x as int, y as int),
    {
        self.cells.at(RowCol { row: x, col: y })
    }

    /// Sets the cell at line `x` and column `y`.
    pub fn set(&mut self, x: usize, y: usize, value: bool)
        requires
            old(self).wf(),
            old(self).board().contains(x as int, y as int),
        ensures
            final(self).wf(),
            final(self).board() == old(self).board().with_cell(x as int, y as int, value),
    {
        self.cells.set(RowCol { row: x, col: y }, value);
    }

    /// How many of the eight cells around the cell at line `x` and column
    /// `y` are alive; what lies off the board is dead.
    pub fn count_live_neighbours(&self, x: usize, y: usize) -> (count: u8)
        requires
            self.wf(),
            self.board().contains(x as int, y as int),
        ensures
            count == self.board().live_neighbours(x as int, y as int),
            count <= 8,
    {
        self.cells.count_live_neighbours(RowCol { row: x, col: y })
    }

    /// The number of lines.
    pub fn nb_lines(&self) -> (n: usize)
        ensures
            n == self.board().rows,
    {
        self.cells.nb_rows()
    }

    /// The number of columns.
    pub fn nb_columns(&self) -> (n: usize)
        ensures
            n == self.board().cols,
    {
        self.cells.nb_columns()
    }

    /// The number of live cells.
    pub fn count_live_cells(&self) -> (count: u64)
        requires
            self.wf(),
        ensures
            count == self.board().population(),
    {
        self.cells.count_live_cells()
    }
}

} // verus!
