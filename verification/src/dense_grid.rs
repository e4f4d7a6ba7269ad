use vstd::prelude::*;
use crate::grid::{lemma_positions_count, positions, representable, Board, Grid, RowCol};
use crate::rle::{
    cursor_col, cursor_row, height, lemma_live_before_next, lemma_live_run_in_box,
    lemma_next_run, lemma_prefix_bounds, live_before, run_covers, seeded, width, Rle, RleEntry,
};

verus! {

/// A board stored cell by cell, with a border of dead cells one cell wide
/// on every side, so that the eight neighbours of any cell can be read
/// without a test for the edge.
#[derive(Clone, Debug)]
pub struct DenseGrid {
    grid: Vec<Vec<bool>>,
    nb_rows: usize,
    nb_cols: usize,
}

/// The board that `new_from` makes of a table of cells.
pub open spec fn table_board(g: &Vec<Vec<bool>>) -> Board {
    Board {
        rows: (g.len() + 2) as nat,
        cols: (g[0].len() + 2) as nat,
        live: Set::new(
            |p: (int, int)| 0 <= p.0 < g.len() && 0 <= p.1 < g[0].len() && g[p.0][p.1],
        ),
    }
}

impl DenseGrid {
    /// The storage is two rows and two columns larger than the board, and
    /// its outer ring is dead.
    spec fn padded(&self) -> bool {
        &&& self.nb_rows >= 1
        &&& self.nb_cols >= 1
        &&& self.nb_rows + 2 <= usize::MAX
        &&& self.nb_cols + 2 <= usize::MAX
        &&& self.nb_rows * self.nb_cols <= u64::MAX
        &&& self.grid.len() == self.nb_rows + 2
        &&& forall|i: int|
            0 <= i < self.nb_rows + 2 ==> (#[trigger] self.grid[i]).len() == self.nb_cols + 2
        &&& forall|i: int, j: int|
            0 <= i < self.nb_rows + 2 && 0 <= j < self.nb_cols + 2 && (i == 0 || i == self.nb_rows
                + 1 || j == 0 || j == self.nb_cols + 1) ==> !(#[trigger] self.grid[i][j])
    }

    /// The cell of the storage that holds the board's cell `(row, col)`.
    spec fn stored(&self, row: int, col: int) -> bool {
        self.grid[row + 1][col + 1]
    }

    /// A board of at least `rows` by `columns` cells, all dead but for the
    /// pattern, which lies in its middle.
    pub fn new_from_rle(rle: &Rle, rows: usize, columns: usize) -> (grid: Self)
        requires
            rle.wf(),
            representable(
                seeded(rle.pattern@, rows as nat, columns as nat).rows,
                seeded(rle.pattern@, rows as nat, columns as nat).cols,
            ),
        ensures
            grid.wf(),
            grid.board() == seeded(rle.pattern@, rows as nat, columns as nat),
    {
        let ghost pattern = rle.pattern@;
        let (rle_rows, rle_cols) = rle.dimension();
        let rows = if rows >= rle_rows { rows } else { rle_rows };
        let columns = if columns >= rle_cols { columns } else { rle_cols };

        let mut grid = Self::new(rows, columns);

        let row_shift = rows / 2 - rle_rows / 2;
        let col_shift = columns / 2 - rle_cols / 2;

        let mut row = row_shift;
        let mut col = col_shift;

        for k in 0..rle.pattern.len()
            invariant
                pattern == rle.pattern@,
                rle.wf(),
                rle_rows == height(pattern),
                rle_cols == width(pattern),
                rle_rows <= rows,
                rle_cols <= columns,
                row_shift == rows / 2 - rle_rows / 2,
                col_shift == columns / 2 - rle_cols / 2,
                grid.wf(),
                grid.board().rows == rows,
                grid.board().cols == columns,
                row == row_shift + cursor_row(pattern.take(k as int)),
                col == col_shift + cursor_col(pattern.take(k as int)),
                forall|p: (int, int)|
                    grid.board().live.contains(p) <==> live_before(
                        pattern,
                        k as int,
                        p.0 - row_shift,
                        p.1 - col_shift,
                    ),
        {
            proof {
                lemma_next_run(pattern, k as int);
                lemma_prefix_bounds(pattern, k + 1);
                assert forall|p: (int, int)|
                    live_before(pattern, k + 1, p.0 - row_shift, p.1 - col_shift) <==> live_before(
                        pattern,
                        k as int,
                        p.0 - row_shift,
                        p.1 - col_shift,
                    ) || run_covers(pattern, k as int, p.0 - row_shift, p.1 - col_shift) by {
                    lemma_live_before_next(pattern, k as int, p.0 - row_shift, p.1 - col_shift);
                }
            }
            match rle.pattern[k] {
                RleEntry::Live(nb) => {
                    proof {
                        lemma_live_run_in_box(pattern, k as int);
                    }
                    for at in col..col + nb
                        invariant
                            pattern == rle.pattern@,
                            0 <= k < pattern.len(),
                            pattern[k as int] == RleEntry::Live(nb),
                            row < rows,
                            col + nb <= columns,
                            row == row_shift + cursor_row(pattern.take(k as int)),
                            col == col_shift + cursor_col(pattern.take(k as int)),
                            grid.wf(),
                            grid.board().rows == rows,
                            grid.board().cols == columns,
                            forall|p: (int, int)|
                                grid.board().live.contains(p) <==> live_before(
                                    pattern,
                                    k as int,
                                    p.0 - row_shift,
                                    p.1 - col_shift,
                                ) || (p.0 == row && col <= p.1 < at),
                    {
                        grid.set(RowCol { row, col: at }, true);
                    }
                    col = col + nb;
                },
                RleEntry::Dead(nb) => {
                    col = col + nb;
                },
                RleEntry::NewRow(nb) => {
                    row = row + nb;
                    col = col_shift;
                },
            }
        }
        proof {
            assert(grid.board().live =~= seeded(pattern, rows as nat, columns as nat).live);
        }
        grid
    }

    /// A board two rows and two columns larger than the table `g`, which
    /// holds the cells of `g` in its top left corner and dead cells elsewhere.
    /// The first row of `g` gives the number of columns; what a longer row
    /// holds beyond that is left out.
    pub fn new_from(g: &Vec<Vec<bool>>) -> (grid: Self)
        requires
            g.len() >= 1,
            g[0].len() >= 1,
            forall|i: int| 0 <= i < g.len() ==> (#[trigger] g[i]).len() >= g[0].len(),
            representable((g.len() + 2) as nat, (g[0].len() + 2) as nat),
        ensures
            grid.wf(),
            grid.board() == table_board(g),
    {
        let nb_rows = g.len();
        let nb_cols = g[0].len();
        let mut grid = Self::new(nb_rows + 2, nb_cols + 2);
        for row in 0..nb_rows
            invariant
                nb_rows == g.len(),
                nb_cols == g[0].len(),
                g.len() >= 1,
                g[0].len() >= 1,
                forall|i: int| 0 <= i < g.len() ==> (#[trigger] g[i]).len() >= g[0].len(),
                grid.wf(),
                grid.board().rows == g.len() + 2,
                grid.board().cols == g[0].len() + 2,
                forall|p: (int, int)|
                    grid.board().live.contains(p) <==> 0 <= p.0 < row && 0 <= p.1 < g[0].len()
                        && g[p.0][p.1],
        {
            for col in 0..nb_cols
                invariant
                    nb_rows == g.len(),
                    nb_cols == g[0].len(),
                    g.len() >= 1,
                    g[0].len() >= 1,
                    row < g.len(),
                    forall|i: int| 0 <= i < g.len() ==> (#[trigger] g[i]).len() >= g[0].len(),
                    grid.wf(),
                    grid.board().rows == g.len() + 2,
                    grid.board().cols == g[0].len() + 2,
                    forall|p: (int, int)|
                        grid.board().live.contains(p) <==> 0 <= p.0 <= row && 0 <= p.1
                            < g[0].len() && g[p.0][p.1] && (p.0 == row ==> p.1 < col),
            {
                grid.set(RowCol { row, col }, g[row][col]);
            }
        }
        proof {
            assert(grid.board().live =~= table_board(g).live);
        }
        grid
    }
}

impl Grid for DenseGrid {
    closed spec fn board(&self) -> Board {
        Board {
            rows: self.nb_rows as nat,
            cols: self.nb_cols as nat,
            live: Set::new(
                |p: (int, int)|
                    0 <= p.0 < self.nb_rows && 0 <= p.1 < self.nb_cols && self.stored(p.0, p.1),
            ),
        }
    }

    closed spec fn wf(&self) -> bool {
        self.padded()
    }

    proof fn lemma_wf(&self) {
    }

    fn new(nb_rows: usize, nb_cols: usize) -> (grid: Self) {
        let mut row: Vec<bool> = Vec::new();
        row.resize(nb_cols + 2, false);
        let mut grid: Vec<Vec<bool>> = Vec::new();
        grid.resize(nb_rows + 2, row);
        let made = DenseGrid { grid, nb_cols, nb_rows };
        proof {
            assert(made.board().live =~= Set::empty());
        }
        made
    }

    fn at(&self, rc: RowCol) -> (alive: bool) {
        self.grid[rc.row + 1][rc.col + 1]
    }

    fn set(&mut self, rc: RowCol, value: bool) {
        self.grid[rc.row + 1][rc.col + 1] = value;
        proof {
            assert(self.board().live =~= old(self).board().with_cell(
                rc.row as int,
                rc.col as int,
                value,
            ).live);
        }
    }

    fn count_live_neighbours(&self, rc: RowCol) -> (count: u8) {
        let x = rc.row + 1;
        let y = rc.col + 1;
        self.grid[x - 1][y - 1] as u8 + self.grid[x - 1][y] as u8 + self.grid[x - 1][y + 1] as u8
            + self.grid[x][y - 1] as u8 + self.grid[x][y + 1] as u8 + self.grid[x + 1][y - 1] as u8
            + self.grid[x + 1][y] as u8 + self.grid[x + 1][y + 1] as u8
    }

    fn count_live_cells(&self) -> (count: u64) {
        let mut count: u64 = 0;
        let ghost mut seen: Set<(int, int)> = Set::empty();
        for row in 0..self.nb_rows
            invariant
                self.padded(),
                seen.finite(),
                count == seen.len(),
                forall|p: (int, int)|
                    seen.contains(p) <==> 0 <= p.0 < row && 0 <= p.1 < self.nb_cols
                        && self.stored(p.0, p.1),
        {
            for col in 0..self.nb_cols
                invariant
                    self.padded(),
                    row < self.nb_rows,
                    seen.finite(),
                    count == seen.len(),
                    forall|p: (int, int)|
                        seen.contains(p) <==> 0 <= p.0 <= row && 0 <= p.1 < self.nb_cols
                            && self.stored(p.0, p.1) && (p.0 == row ==> p.1 < col),
            {
                if self.grid[row + 1][col + 1] {
                    proof {
                        let here = (row as int, col as int);
                        lemma_positions_count(
                            self.nb_rows as nat,
                            self.nb_cols as nat,
                        );
                        vstd::set_lib::lemma_len_subset(
                            seen.insert(here),
                            positions(self.nb_rows as nat, self.nb_cols as nat),
                        );
                        seen = seen.insert(here);
                    }
                    count += 1;
                }
            }
        }
        proof {
            assert(seen =~= self.board().live);
        }
        count
    }

    fn nb_rows(&self) -> (n: usize) {
        self.nb_rows
    }

    fn nb_columns(&self) -> (n: usize) {
        self.nb_cols
    }
}

} // verus!
