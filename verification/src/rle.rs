use vstd::prelude::*;
use crate::grid::Board;

verus! {

/// One run of a pattern: so many live cells, so many dead cells, or so many
/// steps down to the start of a lower row.
#[derive(Debug, PartialEq, Eq)]
pub enum RleEntry {
    Live(usize),
    Dead(usize),
    NewRow(usize),
}

impl RleEntry {
    /// The length of the run.
    pub open spec fn count(self) -> nat {
        match self {
            RleEntry::Live(n) => n as nat,
            RleEntry::Dead(n) => n as nat,
            RleEntry::NewRow(n) => n as nat,
        }
    }
}

/// A pattern as a sequence of runs, read from its top left corner.
#[derive(Debug)]
pub struct Rle {
    pub pattern: Vec<RleEntry>,
}

/// The row in which the cursor stands after the runs of `pattern`: the sum
/// of its `NewRow` runs.
pub open spec fn cursor_row(pattern: Seq<RleEntry>) -> nat
    decreases pattern.len(),
{
    if pattern.len() == 0 {
        0
    } else {
        match pattern.last() {
            RleEntry::NewRow(n) => cursor_row(pattern.drop_last()) + n as nat,
            _ => cursor_row(pattern.drop_last()),
        }
    }
}

/// The column in which the cursor stands after the runs of `pattern`: the
/// sum of the runs of cells since the last `NewRow`.
pub open spec fn cursor_col(pattern: Seq<RleEntry>) -> nat
    decreases pattern.len(),
{
    if pattern.len() == 0 {
        0
    } else {
        match pattern.last() {
            RleEntry::NewRow(_) => 0,
            entry => cursor_col(pattern.drop_last()) + entry.count(),
        }
    }
}

/// The number of columns of the pattern: the rightmost column that the
/// cursor reaches.
pub open spec fn width(pattern: Seq<RleEntry>) -> nat
    decreases pattern.len(),
{
    if pattern.len() == 0 {
        0
    } else if width(pattern.drop_last()) >= cursor_col(pattern) {
        width(pattern.drop_last())
    } else {
        cursor_col(pattern)
    }
}

/// The number of rows of the pattern. A last row counts whether or not a
/// `NewRow` closes it.
pub open spec fn height(pattern: Seq<RleEntry>) -> nat {
    if pattern.len() == 0 {
        0
    } else if pattern.last() is NewRow {
        cursor_row(pattern)
    } else {
        cursor_row(pattern) + 1
    }
}

/// The run at `index` is a run of live cells that covers the cell
/// `(row, col)` of the pattern.
pub open spec fn run_covers(pattern: Seq<RleEntry>, index: int, row: int, col: int) -> bool {
    &&& 0 <= index < pattern.len()
    &&& pattern[index] is Live
    &&& row == cursor_row(pattern.take(index))
    &&& cursor_col(pattern.take(index)) <= col < cursor_col(pattern.take(index))
        + pattern[index].count()
}

/// The cell `(row, col)` of the pattern, counted from its top left corner,
/// lies in a run of live cells.
pub open spec fn live_at(pattern: Seq<RleEntry>, row: int, col: int) -> bool {
    exists|index: int| run_covers(pattern, index, row, col)
}

/// One of the first `k` runs is a run of live cells that covers the cell
/// `(row, col)` of the pattern.
pub open spec fn live_before(pattern: Seq<RleEntry>, k: int, row: int, col: int) -> bool {
    exists|index: int| index < k && run_covers(pattern, index, row, col)
}

/// The larger of two sizes.
pub open spec fn at_least(size: nat, least: nat) -> nat {
    if size >= least {
        size
    } else {
        least
    }
}

/// The board that holds the pattern in its middle: `rows` by `cols` cells,
/// or as many more as the pattern needs, with the pattern's top left corner
/// at half the board's size less half the pattern's, in rows and in columns.
pub open spec fn seeded(pattern: Seq<RleEntry>, rows: nat, cols: nat) -> Board {
    let board_rows = at_least(rows, height(pattern));
    let board_cols = at_least(cols, width(pattern));
    let row_shift = board_rows / 2 - height(pattern) / 2;
    let col_shift = board_cols / 2 - width(pattern) / 2;
    Board {
        rows: board_rows,
        cols: board_cols,
        live: Set::new(|p: (int, int)| live_at(pattern, p.0 - row_shift, p.1 - col_shift)),
    }
}

/// Every run has a length of at least one.
pub open spec fn positive_runs(pattern: Seq<RleEntry>) -> bool {
    forall|i: int| 0 <= i < pattern.len() ==> (#[trigger] pattern[i]).count() >= 1
}

/// A prefix of a pattern reaches no further down or right than the pattern.
pub proof fn lemma_prefix_bounds(pattern: Seq<RleEntry>, k: int)
    requires
        0 <= k <= pattern.len(),
    ensures
        cursor_row(pattern.take(k)) <= cursor_row(pattern),
        cursor_col(pattern.take(k)) <= width(pattern.take(k)),
        width(pattern.take(k)) <= width(pattern),
    decreases pattern.len(),
{
    if k == pattern.len() {
        assert(pattern.take(k) =~= pattern);
    } else {
        assert(pattern.drop_last().take(k) =~= pattern.take(k));
        lemma_prefix_bounds(pattern.drop_last(), k);
    }
}

/// The first `k + 1` runs are the first `k` runs and the run at `k`.
pub proof fn lemma_next_run(pattern: Seq<RleEntry>, k: int)
    requires
        0 <= k < pattern.len(),
    ensures
        pattern.take(k + 1).drop_last() == pattern.take(k),
        pattern.take(k + 1).last() == pattern[k],
{
    assert(pattern.take(k + 1).drop_last() =~= pattern.take(k));
}

/// In a pattern whose runs are all positive, every run of live cells lies
/// within the pattern's rows and columns.
pub proof fn lemma_live_run_in_box(pattern: Seq<RleEntry>, k: int)
    requires
        positive_runs(pattern),
        0 <= k < pattern.len(),
        pattern[k] is Live,
    ensures
        cursor_row(pattern.take(k)) < height(pattern),
        cursor_col(pattern.take(k)) + pattern[k].count() <= width(pattern),
{
    lemma_next_run(pattern, k);
    lemma_prefix_bounds(pattern, k + 1);
    lemma_row_below(pattern, k);
}

/// In a pattern whose runs are all positive, the row of a run of cells is
/// one of the pattern's rows.
proof fn lemma_row_below(pattern: Seq<RleEntry>, k: int)
    requires
        positive_runs(pattern),
        0 <= k < pattern.len(),
        !(pattern[k] is NewRow),
    ensures
        cursor_row(pattern.take(k)) < height(pattern),
    decreases pattern.len(),
{
    if k == pattern.len() - 1 {
        assert(pattern.take(k) =~= pattern.drop_last());
    } else {
        let shorter = pattern.drop_last();
        assert(shorter.take(k) =~= pattern.take(k));
        lemma_row_below(shorter, k);
    }
}

/// The cells that the first `k + 1` runs cover are those that the first `k`
/// cover and those of the run at `k`.
pub proof fn lemma_live_before_next(pattern: Seq<RleEntry>, k: int, row: int, col: int)
    ensures
        live_before(pattern, k + 1, row, col) <==> live_before(pattern, k, row, col) || run_covers(
            pattern,
            k,
            row,
            col,
        ),
{
    if live_before(pattern, k + 1, row, col) {
        let index = choose|index: int| index < k + 1 && run_covers(pattern, index, row, col);
        if index < k {
            assert(live_before(pattern, k, row, col));
        }
    }
    if live_before(pattern, k, row, col) {
        let index = choose|index: int| index < k && run_covers(pattern, index, row, col);
        assert(index < k + 1 && run_covers(pattern, index, row, col));
    }
}

/// A pattern whose runs are all positive lies wholly on the board that it
/// seeds: centring moves no live cell off the board.
pub proof fn lemma_seeded_wf(pattern: Seq<RleEntry>, rows: nat, cols: nat)
    requires
        positive_runs(pattern),
        at_least(rows, height(pattern)) >= 1,
        at_least(cols, width(pattern)) >= 1,
    ensures
        seeded(pattern, rows, cols).wf(),
{
    let board = seeded(pattern, rows, cols);
    let row_shift = board.rows / 2 - height(pattern) / 2;
    let col_shift = board.cols / 2 - width(pattern) / 2;
    assert forall|p: (int, int)| board.live.contains(p) implies board.contains(p.0, p.1) by {
        let row = p.0 - row_shift;
        let col = p.1 - col_shift;
        let index = choose|index: int| run_covers(pattern, index, row, col);
        lemma_live_run_in_box(pattern, index);
    }
}

impl Rle {
    /// The pattern's rows and columns can be counted in a `usize`.
    pub open spec fn measurable(&self) -> bool {
        &&& height(self.pattern@) <= usize::MAX
        &&& width(self.pattern@) <= usize::MAX
    }

    /// Every run is positive and the pattern is measurable.
    pub open spec fn wf(&self) -> bool {
        &&& positive_runs(self.pattern@)
        &&& self.measurable()
    }

    /// The rows and columns of the smallest box that holds the pattern.
    pub fn dimension(&self) -> (dim: (usize, usize))
        requires
            self.measurable(),
        ensures
            dim.0 == height(self.pattern@),
            dim.1 == width(self.pattern@),
    {
        if self.pattern.is_empty() {
            return (0, 0);
        }
        let mut max_cols: usize = 0;
        let mut cols: usize = 0;
        let mut rows: usize = 0;
        for k in 0..self.pattern.len()
            invariant
                self.measurable(),
                rows == cursor_row(self.pattern@.take(k as int)),
                cols == cursor_col(self.pattern@.take(k as int)),
                max_cols == width(self.pattern@.take(k as int)),
        {
            proof {
                lemma_next_run(self.pattern@, k as int);
                lemma_prefix_bounds(self.pattern@, k + 1);
            }
            match self.pattern[k] {
                RleEntry::Live(nb) => {
                    cols += nb;
                    max_cols = if cols >= max_cols { cols } else { max_cols };
                },
                RleEntry::Dead(nb) => {
                    cols += nb;
                    max_cols = if cols >= max_cols { cols } else { max_cols };
                },
                RleEntry::NewRow(nb) => {
                    rows += nb;
                    cols = 0;
                },
            }
        }
        assert(self.pattern@.take(self.pattern.len() as int) =~= self.pattern@);
        if let RleEntry::NewRow(_) = self.pattern[self.pattern.len() - 1] {
            (rows, max_cols)
        } else {
            (rows + 1, max_cols)
        }
    }

    /// Whether the pattern is well formed: what `dimension` and the grids
    /// ask of a pattern before they take it.
    pub fn is_valid(&self) -> (valid: bool)
        ensures
            valid == self.wf(),
    {
        let mut cols: usize = 0;
        let mut rows: usize = 0;
        for k in 0..self.pattern.len()
            invariant
                rows == cursor_row(self.pattern@.take(k as int)),
                cols == cursor_col(self.pattern@.take(k as int)),
                width(self.pattern@.take(k as int)) <= usize::MAX,
                positive_runs(self.pattern@.take(k as int)),
        {
            proof {
                lemma_next_run(self.pattern@, k as int);
                lemma_prefix_bounds(self.pattern@, k + 1);
            }
            let (run, down) = match self.pattern[k] {
                RleEntry::Live(nb) => (nb, false),
                RleEntry::Dead(nb) => (nb, false),
                RleEntry::NewRow(nb) => (nb, true),
            };
            if run == 0 {
                return false;
            }
            if down {
                match rows.checked_add(run) {
                    Some(sum) => {
                        rows = sum;
                        cols = 0;
                    },
                    None => {
                        return false;
                    },
                }
            } else {
                match cols.checked_add(run) {
                    Some(sum) => {
                        cols = sum;
                    },
                    None => {
                        return false;
                    },
                }
            }
            proof {
                let longer = self.pattern@.take(k + 1);
                assert forall|i: int| 0 <= i < longer.len() implies (#[trigger] longer[i]).count()
                    >= 1 by {
                    if i < k {
                        assert(longer[i] == self.pattern@.take(k as int)[i]);
                    }
                }
            }
        }
        assert(self.pattern@.take(self.pattern.len() as int) =~= self.pattern@);
        if self.pattern.is_empty() {
            true
        } else if let RleEntry::NewRow(_) = self.pattern[self.pattern.len() - 1] {
            true
        } else {
            rows < usize::MAX
        }
    }
}

} // verus!
