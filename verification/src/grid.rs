use vstd::prelude::*;
use vstd::set_lib::*;
use crate::rule::RuleModel;

verus! {

/// A position on a board, counted from the top left corner.
#[derive(Clone, Debug)]
pub struct RowCol {
    pub row: usize,
    pub col: usize,
}

/// A finite rectangular board as a mathematical value: its size and the
/// set of positions that hold a live cell.
pub struct Board {
    pub rows: nat,
    pub cols: nat,
    pub live: Set<(int, int)>,
}

/// 1 for a live cell, 0 for a dead one.
pub open spec fn bit(alive: bool) -> nat {
    if alive {
        1
    } else {
        0
    }
}

/// Every position of a `rows` by `cols` rectangle.
pub open spec fn positions(rows: nat, cols: nat) -> Set<(int, int)> {
    Set::new(|p: (int, int)| 0 <= p.0 < rows && 0 <= p.1 < cols)
}

/// The eight positions around `(row, col)`.
pub open spec fn neighbourhood(row: int, col: int) -> Set<(int, int)> {
    Set::new(
        |p: (int, int)|
            row - 1 <= p.0 <= row + 1 && col - 1 <= p.1 <= col + 1 && !(p.0 == row && p.1 == col),
    )
}

impl Board {
    /// `(row, col)` is a position of the board.
    pub open spec fn contains(self, row: int, col: int) -> bool {
        0 <= row < self.rows && 0 <= col < self.cols
    }

    /// The board has at least one row and one column, and every live cell
    /// sits on it: whatever lies off the board is dead.
    pub open spec fn wf(self) -> bool {
        &&& self.rows >= 1
        &&& self.cols >= 1
        &&& self.live.subset_of(positions(self.rows, self.cols))
    }

    /// The cell at `(row, col)` is alive.
    pub open spec fn alive(self, row: int, col: int) -> bool {
        self.live.contains((row, col))
    }

    /// How many of the eight cells around `(row, col)` are alive.
    pub open spec fn live_neighbours(self, row: int, col: int) -> nat {
        bit(self.alive(row - 1, col - 1)) + bit(self.alive(row - 1, col)) + bit(
            self.alive(row - 1, col + 1),
        ) + bit(self.alive(row, col - 1)) + bit(self.alive(row, col + 1)) + bit(
            self.alive(row + 1, col - 1),
        ) + bit(self.alive(row + 1, col)) + bit(self.alive(row + 1, col + 1))
    }

    /// The number of live cells.
    pub open spec fn population(self) -> nat {
        self.live.len()
    }

    /// The board of the given size on which every cell is dead.
    pub open spec fn empty(rows: nat, cols: nat) -> Board {
        Board { rows, cols, live: Set::empty() }
    }

    /// The same board with the cell at `(row, col)` set to `value`.
    pub open spec fn with_cell(self, row: int, col: int, value: bool) -> Board {
        Board {
            rows: self.rows,
            cols: self.cols,
            live: if value {
                self.live.insert((row, col))
            } else {
                self.live.remove((row, col))
            },
        }
    }

    /// The state of `(row, col)` one generation later under `rule`.
    pub open spec fn next_alive(self, rule: RuleModel, row: int, col: int) -> bool {
        rule.lives(self.alive(row, col), self.live_neighbours(row, col) as int)
    }

    /// The next generation: every cell of the board is replaced, all at
    /// once, by what `rule` gives for its state and its live neighbours.
    pub open spec fn step(self, rule: RuleModel) -> Board {
        Board {
            rows: self.rows,
            cols: self.cols,
            live: Set::new(
                |p: (int, int)| self.contains(p.0, p.1) && self.next_alive(rule, p.0, p.1),
            ),
        }
    }

    /// The board after so many generations under `rule`.
    pub open spec fn after(self, rule: RuleModel, generations: nat) -> Board
        decreases generations,
    {
        if generations == 0 {
            self
        } else {
            self.after(rule, (generations - 1) as nat).step(rule)
        }
    }
}

/// The sizes that a grid can have: at least one row and one column, room
/// for a border around them in a `usize`, and no more cells than a `u64`
/// can count.
pub open spec fn representable(rows: nat, cols: nat) -> bool {
    &&& rows >= 1
    &&& cols >= 1
    &&& rows + 2 <= usize::MAX
    &&& cols + 2 <= usize::MAX
    &&& rows * cols <= u64::MAX
}

/// Whether a grid can have `rows` rows and `cols` columns.
pub fn is_representable(rows: usize, cols: usize) -> (fits: bool)
    ensures
        fits == representable(rows as nat, cols as nat),
{
    if rows < 1 || cols < 1 || rows > usize::MAX - 2 || cols > usize::MAX - 2 {
        return false;
    }
    match (rows as u64).checked_mul(cols as u64) {
        Some(_) => true,
        None => false,
    }
}

/// The capability that a universe needs of its board.
pub trait Grid: Sized {
    /// The board that the grid holds.
    spec fn board(&self) -> Board;

    /// The invariant of the representation.
    spec fn wf(&self) -> bool;

    /// A well-formed grid holds a well-formed board of a size that `new`
    /// accepts.
    proof fn lemma_wf(&self)
        requires
            self.wf(),
        ensures
            self.board().wf(),
            representable(self.board().rows, self.board().cols),
    ;

    /// A grid of dead cells.
    fn new(nb_rows: usize, nb_cols: usize) -> (grid: Self)
        requires
            representable(nb_rows as nat, nb_cols as nat),
        ensures
            grid.wf(),
            grid.board() == Board::empty(nb_rows as nat, nb_cols as nat),
    ;

    /// Whether the cell at `rc` is alive.
    fn at(&self, rc: RowCol) -> (alive: bool)
        requires
            self.wf(),
            self.board().contains(rc.row as int, rc.col as int),
        ensures
            alive == self.board().alive(rc.row as int, rc.col as int),
    ;

    /// Sets the cell at `rc`; no other cell changes.
    fn set(&mut self, rc: RowCol, value: bool)
        requires
            old(self).wf(),
            old(self).board().contains(rc.row as int, rc.col as int),
        ensures
            final(self).wf(),
            final(self).board() == old(self).board().with_cell(
                rc.row as int,
                rc.col as int,
                value,
            ),
    ;

    /// How many of the eight cells around `rc` are alive. What lies off
    /// the board is dead, so a cell at the edge needs no other treatment.
    fn count_live_neighbours(&self, rc: RowCol) -> (count: u8)
        requires
            self.wf(),
            self.board().contains(rc.row as int, rc.col as int),
        ensures
            count == self.board().live_neighbours(rc.row as int, rc.col as int),
            count <= 8,
    ;

    /// The number of live cells.
    fn count_live_cells(&self) -> (count: u64)
        requires
            self.wf(),
        ensures
            count == self.board().population(),
    ;

    /// The number of rows.
    fn nb_rows(&self) -> (n: usize)
        ensures
            n == self.board().rows,
    ;

    /// The number of columns.
    fn nb_columns(&self) -> (n: usize)
        ensures
            n == self.board().cols,
    ;
}

/// One row of a rectangle, up to a column.
spec fn row_positions(row: int, cols: nat) -> Set<(int, int)> {
    Set::new(|p: (int, int)| p.0 == row && 0 <= p.1 < cols)
}

proof fn lemma_row_positions(row: int, cols: nat)
    ensures
        row_positions(row, cols).finite(),
        row_positions(row, cols).len() == cols,
    decreases cols,
{
    if cols == 0 {
        assert(row_positions(row, cols) =~= Set::empty());
    } else {
        let shorter = (cols - 1) as nat;
        lemma_row_positions(row, shorter);
        assert(row_positions(row, cols) =~= row_positions(row, shorter).insert(
            (row, cols - 1),
        ));
    }
}

/// A rectangle has finitely many positions: its rows times its columns.
pub proof fn lemma_positions_count(rows: nat, cols: nat)
    ensures
        positions(rows, cols).finite(),
        positions(rows, cols).len() == rows * cols,
    decreases rows,
{
    if rows == 0 {
        assert(positions(rows, cols) =~= Set::empty());
        assert(rows * cols == 0);
    } else {
        let above = (rows - 1) as nat;
        lemma_positions_count(above, cols);
        lemma_row_positions(above as int, cols);
        let last = row_positions(above as int, cols);
        assert(positions(rows, cols) =~= positions(above, cols).union(last));
        assert(positions(above, cols).disjoint(last));
        lemma_set_disjoint_lens(positions(above, cols), last);
        assert(rows * cols == above * cols + cols) by (nonlinear_arith)
            requires
                rows == above + 1,
        ;
    }
}

/// A well-formed board has finitely many live cells, no more than it has
/// positions.
pub proof fn lemma_population_bounded(board: Board)
    requires
        board.wf(),
    ensures
        board.live.finite(),
        board.population() <= board.rows * board.cols,
{
    lemma_positions_count(board.rows, board.cols);
    lemma_len_subset(board.live, positions(board.rows, board.cols));
}

/// Whatever lies off a well-formed board is dead.
pub proof fn lemma_off_board_dead(board: Board, row: int, col: int)
    requires
        board.wf(),
        !board.contains(row, col),
    ensures
        !board.alive(row, col),
{
    if board.alive(row, col) {
        assert(positions(board.rows, board.cols).contains((row, col)));
    }
}

/// A generation changes neither the size of a board nor that it is well
/// formed: no cell comes alive off the board.
pub proof fn lemma_step_wf(board: Board, rule: RuleModel)
    requires
        board.wf(),
    ensures
        board.step(rule).wf(),
        board.step(rule).rows == board.rows,
        board.step(rule).cols == board.cols,
{
}

/// A board without a live cell stays as it is, generation after generation,
/// under any rule that gives no birth to a cell without live neighbours.
pub proof fn lemma_dead_board_stays_dead(board: Board, rule: RuleModel, generations: nat)
    requires
        board == Board::empty(board.rows, board.cols),
        !rule.birth.contains(0),
    ensures
        board.after(rule, generations) == board,
        board.after(rule, generations).population() == 0,
    decreases generations,
{
    if generations > 0 {
        lemma_dead_board_stays_dead(board, rule, (generations - 1) as nat);
        assert(board.step(rule).live =~= board.live);
    }
}

/// Under Conway's rule a board without a live cell is a fixed point: it
/// stays without a live cell for ever.
pub proof fn lemma_life_keeps_dead_board(rows: nat, cols: nat, generations: nat)
    ensures
        Board::empty(rows, cols).after(RuleModel::life(), generations) == Board::empty(rows, cols),
        Board::empty(rows, cols).after(RuleModel::life(), generations).population() == 0,
{
    lemma_dead_board_stays_dead(Board::empty(rows, cols), RuleModel::life(), generations);
}

/// `cells` and, if it is alive, the cell at `(row, col)`.
spec fn with_live(board: Board, cells: Set<(int, int)>, row: int, col: int) -> Set<(int, int)> {
    if board.alive(row, col) {
        cells.insert((row, col))
    } else {
        cells
    }
}

/// The live neighbours of a cell are the live cells among the eight
/// positions around it. They all lie on the board: a position off the board
/// counts for nothing, so a cell at the edge has as many live neighbours as
/// it has on the board.
pub proof fn lemma_live_neighbours(board: Board, row: int, col: int)
    requires
        board.wf(),
    ensures
        board.live.intersect(neighbourhood(row, col)).finite(),
        board.live_neighbours(row, col) == board.live.intersect(neighbourhood(row, col)).len(),
        board.live.intersect(neighbourhood(row, col)).subset_of(
            positions(board.rows, board.cols),
        ),
        board.live_neighbours(row, col) <= 8,
{
    let s0 = Set::<(int, int)>::empty();
    let s1 = with_live(board, s0, row - 1, col - 1);
    let s2 = with_live(board, s1, row - 1, col);
    let s3 = with_live(board, s2, row - 1, col + 1);
    let s4 = with_live(board, s3, row, col - 1);
    let s5 = with_live(board, s4, row, col + 1);
    let s6 = with_live(board, s5, row + 1, col - 1);
    let s7 = with_live(board, s6, row + 1, col);
    let s8 = with_live(board, s7, row + 1, col + 1);
    assert(s1.finite() && s1.len() == bit(board.alive(row - 1, col - 1)));
    assert(s2.finite() && s2.len() == s1.len() + bit(board.alive(row - 1, col)));
    assert(s3.finite() && s3.len() == s2.len() + bit(board.alive(row - 1, col + 1)));
    assert(s4.finite() && s4.len() == s3.len() + bit(board.alive(row, col - 1)));
    assert(s5.finite() && s5.len() == s4.len() + bit(board.alive(row, col + 1)));
    assert(s6.finite() && s6.len() == s5.len() + bit(board.alive(row + 1, col - 1)));
    assert(s7.finite() && s7.len() == s6.len() + bit(board.alive(row + 1, col)));
    assert(s8.finite() && s8.len() == s7.len() + bit(board.alive(row + 1, col + 1)));
    assert(s8 =~= board.live.intersect(neighbourhood(row, col)));
}

} // verus!
