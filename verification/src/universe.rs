use vstd::prelude::*;
use vstd::set_lib::lemma_len_subset;
use crate::grid::{
    lemma_dead_board_stays_dead, lemma_population_bounded, lemma_positions_count, positions, Grid,
    RowCol,
};
use crate::rule::Rule;

verus! {

/// A board under a rule, with the number of generations that have passed
/// and the number of cells that are alive.
pub struct Universe<G> {
    pub generation: u64,
    pub live_cells: u64,
    pub grid: G,
    pub rule: Rule,
}

impl<G: Grid> Universe<G> {
    /// The grid is well formed and `live_cells` is its population.
    pub open spec fn wf(&self) -> bool {
        &&& self.grid.wf()
        &&& self.live_cells == self.grid.board().population()
    }

    /// The universe at generation 0, with the cells of `grid`.
    pub fn new(grid: G, rule: Rule) -> (universe: Self)
        requires
            grid.wf(),
        ensures
            universe.wf(),
            universe.generation == 0,
            universe.grid == grid,
            universe.rule == rule,
    {
        let live_cells = grid.count_live_cells();
        Universe { generation: 0, live_cells, grid, rule }
    }

    /// The next generation. Every cell is computed from the board as it is
    /// before the call: `self` is left as it was. A universe without a live
    /// cell stays as it is, but for its generation, under a rule that gives
    /// no birth to a cell without live neighbours, as Conway's rule does.
    pub fn tick(&self) -> (next: Self)
        requires
            self.wf(),
            self.generation < u64::MAX,
        ensures
            next.wf(),
            next.generation == self.generation + 1,
            next.rule == self.rule,
            next.grid.board() == self.grid.board().step(self.rule@),
            self.live_cells == 0 && !self.rule@.birth.contains(0) ==> next.live_cells == 0
                && next.grid.board() == self.grid.board(),
    {
        proof {
            self.grid.lemma_wf();
            if self.live_cells == 0 && !self.rule@.birth.contains(0) {
                let board = self.grid.board();
                lemma_population_bounded(board);
                board.live.lemma_len0_is_empty();
                lemma_dead_board_stays_dead(board, self.rule@, 1);
                assert(board.after(self.rule@, 1) == board.after(self.rule@, 0).step(self.rule@));
            }
        }
        let nb_rows = self.grid.nb_rows();
        let nb_cols = self.grid.nb_columns();
        let mut next_grid = G::new(nb_rows, nb_cols);
        let mut live_cells: u64 = 0;
        let ghost before = self.grid.board();
        let ghost rule = self.rule@;

        for row in 0..nb_rows
            invariant
                self.wf(),
                before == self.grid.board(),
                rule == self.rule@,
                before.rows == nb_rows,
                before.cols == nb_cols,
                before.rows * before.cols <= u64::MAX,
                next_grid.wf(),
                next_grid.board().rows == nb_rows,
                next_grid.board().cols == nb_cols,
                live_cells == next_grid.board().population(),
                forall|p: (int, int)|
                    next_grid.board().live.contains(p) <==> 0 <= p.0 < row && 0 <= p.1 < nb_cols
                        && before.next_alive(rule, p.0, p.1),
        {
            for col in 0..nb_cols
                invariant
                    self.wf(),
                    before == self.grid.board(),
                    rule == self.rule@,
                    before.rows == nb_rows,
                    before.cols == nb_cols,
                    before.rows * before.cols <= u64::MAX,
                    row < nb_rows,
                    next_grid.wf(),
                    next_grid.board().rows == nb_rows,
                    next_grid.board().cols == nb_cols,
                    live_cells == next_grid.board().population(),
                    forall|p: (int, int)|
                        next_grid.board().live.contains(p) <==> 0 <= p.0 <= row && 0 <= p.1
                            < nb_cols && before.next_alive(rule, p.0, p.1) && (p.0 == row ==> p.1
                            < col),
            {
                if self.tick_cell(row, col) {
                    proof {
                        next_grid.lemma_wf();
                        let grown = next_grid.board().live.insert((row as int, col as int));
                        lemma_positions_count(nb_rows as nat, nb_cols as nat);
                        lemma_len_subset(next_grid.board().live, positions(nb_rows as nat, nb_cols as nat));
                        lemma_len_subset(grown, positions(nb_rows as nat, nb_cols as nat));
                    }
                    live_cells += 1;
                    next_grid.set(RowCol { row, col }, true);
                }
            }
        }
        proof {
            assert(next_grid.board().live =~= before.step(rule).live);
        }
        Universe { generation: self.generation + 1, live_cells, grid: next_grid, rule: self.rule }
    }

    /// Whether the cell at `(row, col)` is alive.
    pub fn at(&self, row: usize, col: usize) -> (alive: bool)
        requires
            self.wf(),
            self.grid.board().contains(row as int, col as int),
        ensures
            alive == self.grid.board().alive(row as int, col as int),
    {
        self.grid.at(RowCol { row, col })
    }

    /// Whether the cell at `(row, col)` is alive in the next generation.
    pub fn tick_cell(&self, row: usize, col: usize) -> (alive: bool)
        requires
            self.wf(),
            self.grid.board().contains(row as int, col as int),
        ensures
            alive == self.grid.board().next_alive(self.rule@, row as int, col as int),
    {
        self.rule.lives(
            self.grid.at(RowCol { row, col }),
            self.grid.count_live_neighbours(RowCol { row, col }),
        )
    }
}

} // verus!
