use glider::dense_grid::DenseGrid;
use glider::grid::{is_representable, Grid, RowCol};
use glider::rle::{Rle, RleEntry};

fn glider() -> Rle {
    // 3o$2bo$bo!
    Rle {
        pattern: vec![
            RleEntry::Live(3),
            RleEntry::NewRow(1),
            RleEntry::Dead(2),
            RleEntry::Live(1),
            RleEntry::NewRow(1),
            RleEntry::Dead(1),
            RleEntry::Live(1),
        ],
    }
}

fn live_cells_of(g: &DenseGrid) -> Vec<(usize, usize)> {
    let mut cells = vec![];
    for row in 0..g.nb_rows() {
        for col in 0..g.nb_columns() {
            if g.at(RowCol { row, col }) {
                cells.push((row, col));
            }
        }
    }
    cells
}

#[test]
fn dense_grid_test_count_live_neighbours() {
    {
        // 1x1 universe
        let g = DenseGrid::new_from(&vec![vec![false]]);

        assert_eq!(g.count_live_neighbours(RowCol { row: 0, col: 0 }), 0);
    }
    {
        // 1x1 universe
        let g = DenseGrid::new_from(&vec![vec![true]]);

        assert_eq!(g.count_live_neighbours(RowCol { row: 0, col: 0 }), 0);
    }
    {
        // 2x2 universe
        let g = DenseGrid::new_from(&vec![
            //   0       1
            vec![true, false], // 0
            vec![false, true], // 1
        ]);

        assert_eq!(g.count_live_neighbours(RowCol { row: 0, col: 0 }), 1);
        assert_eq!(g.count_live_neighbours(RowCol { row: 0, col: 1 }), 2);
        assert_eq!(g.count_live_neighbours(RowCol { row: 1, col: 0 }), 2);
        assert_eq!(g.count_live_neighbours(RowCol { row: 1, col: 1 }), 1);
    }
    {
        // 3x3 universe
        let g = DenseGrid::new_from(&vec![
            //   0      1      2
            vec![true, false, true],   // 0
            vec![false, true, false],  // 1
            vec![false, false, false], // 2
        ]);

        assert_eq!(g.count_live_neighbours(RowCol { row: 0, col: 0 }), 1);
        assert_eq!(g.count_live_neighbours(RowCol { row: 0, col: 1 }), 3);
        assert_eq!(g.count_live_neighbours(RowCol { row: 0, col: 2 }), 1);
        assert_eq!(g.count_live_neighbours(RowCol { row: 1, col: 0 }), 2);
        assert_eq!(g.count_live_neighbours(RowCol { row: 1, col: 1 }), 2);
        assert_eq!(g.count_live_neighbours(RowCol { row: 1, col: 2 }), 2);
    }
}

#[test]
fn dense_grid_test_new_from_rle() {
    // 3o$2bo$bo!
    let rle = glider();

    let dimension = rle.dimension();
    let g = DenseGrid::new_from_rle(&rle, dimension.0, dimension.1);

    assert_eq!(g.at(RowCol { row: 0, col: 0 }), true);
    assert_eq!(g.at(RowCol { row: 0, col: 1 }), true);
    assert_eq!(g.at(RowCol { row: 0, col: 2 }), true);

    assert_eq!(g.at(RowCol { row: 1, col: 0 }), false);
    assert_eq!(g.at(RowCol { row: 1, col: 1 }), false);
    assert_eq!(g.at(RowCol { row: 1, col: 2 }), true);

    assert_eq!(g.at(RowCol { row: 2, col: 0 }), false);
    assert_eq!(g.at(RowCol { row: 2, col: 1 }), true);
    assert_eq!(g.at(RowCol { row: 2, col: 2 }), false);
}

#[test]
fn new_grid_is_dead_and_has_the_size_asked_for() {
    let g = DenseGrid::new(3, 7);
    assert_eq!(g.nb_rows(), 3);
    assert_eq!(g.nb_columns(), 7);
    assert_eq!(g.count_live_cells(), 0);
    for row in 0..3 {
        for col in 0..7 {
            assert!(!g.at(RowCol { row, col }));
            assert_eq!(g.count_live_neighbours(RowCol { row, col }), 0);
        }
    }
}

#[test]
fn set_changes_one_cell_only() {
    let mut g = DenseGrid::new(2, 3);
    g.set(RowCol { row: 1, col: 2 }, true);
    assert_eq!(live_cells_of(&g), vec![(1, 2)]);
    assert_eq!(g.count_live_cells(), 1);
    g.set(RowCol { row: 0, col: 0 }, true);
    assert_eq!(live_cells_of(&g), vec![(0, 0), (1, 2)]);
    assert_eq!(g.count_live_cells(), 2);
    g.set(RowCol { row: 1, col: 2 }, true);
    assert_eq!(g.count_live_cells(), 2);
    g.set(RowCol { row: 1, col: 2 }, false);
    assert_eq!(live_cells_of(&g), vec![(0, 0)]);
    assert_eq!(g.count_live_cells(), 1);
    assert_eq!(g.nb_rows(), 2);
    assert_eq!(g.nb_columns(), 3);
}

#[test]
fn neighbours_on_a_full_board_stop_at_the_edge() {
    let mut g = DenseGrid::new(3, 3);
    for row in 0..3 {
        for col in 0..3 {
            g.set(RowCol { row, col }, true);
        }
    }
    let expected = [[3, 5, 3], [5, 8, 5], [3, 5, 3]];
    for row in 0..3 {
        for col in 0..3 {
            assert_eq!(g.count_live_neighbours(RowCol { row, col }), expected[row][col]);
        }
    }
    assert_eq!(g.count_live_cells(), 9);
}

#[test]
fn neighbours_on_a_single_row_and_a_single_column() {
    let mut row_board = DenseGrid::new(1, 4);
    let mut col_board = DenseGrid::new(4, 1);
    for i in 0..4 {
        row_board.set(RowCol { row: 0, col: i }, true);
        col_board.set(RowCol { row: i, col: 0 }, true);
    }
    let expected = [1, 2, 2, 1];
    for i in 0..4 {
        assert_eq!(row_board.count_live_neighbours(RowCol { row: 0, col: i }), expected[i]);
        assert_eq!(col_board.count_live_neighbours(RowCol { row: i, col: 0 }), expected[i]);
    }
}

#[test]
fn a_cell_is_not_its_own_neighbour() {
    let mut g = DenseGrid::new(3, 3);
    g.set(RowCol { row: 1, col: 1 }, true);
    assert_eq!(g.count_live_neighbours(RowCol { row: 1, col: 1 }), 0);
    for (row, col) in [(0, 0), (0, 1), (0, 2), (1, 0), (1, 2), (2, 0), (2, 1), (2, 2)] {
        assert_eq!(g.count_live_neighbours(RowCol { row, col }), 1);
    }
}

#[test]
fn new_from_adds_two_rows_and_two_columns() {
    let g = DenseGrid::new_from(&vec![vec![true, false, true], vec![false, true, true]]);
    assert_eq!(g.nb_rows(), 4);
    assert_eq!(g.nb_columns(), 5);
    assert_eq!(live_cells_of(&g), vec![(0, 0), (0, 2), (1, 1), (1, 2)]);
    assert_eq!(g.count_live_cells(), 4);
}

#[test]
fn new_from_takes_the_width_of_the_first_row() {
    let g = DenseGrid::new_from(&vec![vec![false, true], vec![true, true, true, true]]);
    assert_eq!(g.nb_rows(), 4);
    assert_eq!(g.nb_columns(), 4);
    assert_eq!(live_cells_of(&g), vec![(0, 1), (1, 0), (1, 1)]);
}

#[test]
fn pattern_is_centred_on_a_larger_board() {
    let g = DenseGrid::new_from_rle(&glider(), 5, 5);
    assert_eq!(g.nb_rows(), 5);
    assert_eq!(g.nb_columns(), 5);
    assert_eq!(live_cells_of(&g), vec![(1, 1), (1, 2), (1, 3), (2, 3), (3, 2)]);
}

#[test]
fn pattern_is_centred_by_halves_rounded_down() {
    // rows: 8 / 2 - 3 / 2 = 3; columns: 6 / 2 - 3 / 2 = 2
    let g = DenseGrid::new_from_rle(&glider(), 8, 6);
    assert_eq!(g.nb_rows(), 8);
    assert_eq!(g.nb_columns(), 6);
    assert_eq!(live_cells_of(&g), vec![(3, 2), (3, 3), (3, 4), (4, 4), (5, 3)]);
}

#[test]
fn board_grows_to_hold_the_pattern() {
    let g = DenseGrid::new_from_rle(&glider(), 1, 1);
    assert_eq!(g.nb_rows(), 3);
    assert_eq!(g.nb_columns(), 3);
    assert_eq!(live_cells_of(&g), vec![(0, 0), (0, 1), (0, 2), (1, 2), (2, 1)]);

    // only the rows are too few: 3 rows, 7 columns, shift 0 and 7 / 2 - 3 / 2 = 2
    let g = DenseGrid::new_from_rle(&glider(), 2, 7);
    assert_eq!(g.nb_rows(), 3);
    assert_eq!(g.nb_columns(), 7);
    assert_eq!(live_cells_of(&g), vec![(0, 2), (0, 3), (0, 4), (1, 4), (2, 3)]);
}

#[test]
fn rows_can_be_skipped_and_left_open() {
    // 2 rows down, then "bo", then a row of "2o" that no NewRow closes
    let rle = Rle {
        pattern: vec![
            RleEntry::NewRow(2),
            RleEntry::Dead(1),
            RleEntry::Live(1),
            RleEntry::NewRow(1),
            RleEntry::Live(2),
        ],
    };
    assert_eq!(rle.dimension(), (4, 2));
    let g = DenseGrid::new_from_rle(&rle, 0, 0);
    assert_eq!(g.nb_rows(), 4);
    assert_eq!(g.nb_columns(), 2);
    assert_eq!(live_cells_of(&g), vec![(2, 1), (3, 0), (3, 1)]);
}

#[test]
fn sizes_that_a_grid_can_have() {
    assert!(is_representable(1, 1));
    assert!(is_representable(1000, 1000));
    assert!(!is_representable(0, 5));
    assert!(!is_representable(5, 0));
    assert!(!is_representable(usize::MAX, 1));
    assert!(!is_representable(1, usize::MAX - 1));
    assert!(is_representable(1, usize::MAX - 2));
    assert!(is_representable(usize::MAX - 2, 1));
    assert!(!is_representable(usize::MAX - 2, 2));
}
