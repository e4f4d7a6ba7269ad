use glider::rle::{Rle, RleEntry};

#[test]
fn test_dimension() {
    {
        let rle = Rle { pattern: vec![] };

        assert_eq!(rle.dimension(), (0, 0));
    }
    {
        let rle = Rle {
            pattern: vec![RleEntry::NewRow(10)],
        };

        assert_eq!(rle.dimension(), (10, 0));
    }
    {
        let rle = Rle {
            pattern: vec![RleEntry::Live(1), RleEntry::Dead(2)],
        };

        assert_eq!(rle.dimension(), (1, 3));
    }
    {
        let rle = Rle {
            pattern: vec![RleEntry::Live(1), RleEntry::Dead(2), RleEntry::NewRow(1)],
        };

        assert_eq!(rle.dimension(), (1, 3));
    }
    {
        // 3o$2bo$bo!
        let rle = Rle {
            pattern: vec![
                RleEntry::Live(3),
                RleEntry::NewRow(1),
                RleEntry::Dead(2),
                RleEntry::Live(1),
                RleEntry::NewRow(1),
                RleEntry::Dead(1),
                RleEntry::Live(1),
                RleEntry::NewRow(1),
            ],
        };

        assert_eq!(rle.dimension(), (3, 3));
    }
    {
        // 3o$2bo$bo
        let rle = Rle {
            pattern: vec![
                RleEntry::Live(3),
                RleEntry::NewRow(1),
                RleEntry::Dead(2),
                RleEntry::Live(1),
                RleEntry::NewRow(1),
                RleEntry::Dead(1),
                RleEntry::Live(1),
            ],
        };

        assert_eq!(rle.dimension(), (3, 3));
    }
}

#[test]
fn width_is_that_of_the_longest_row() {
    let rle = Rle {
        pattern: vec![
            RleEntry::Live(2),
            RleEntry::NewRow(1),
            RleEntry::Dead(4),
            RleEntry::Live(3),
            RleEntry::NewRow(3),
            RleEntry::Live(1),
        ],
    };
    assert_eq!(rle.dimension(), (5, 7));
}

#[test]
fn dead_runs_count_for_the_width() {
    let rle = Rle {
        pattern: vec![RleEntry::Dead(9), RleEntry::NewRow(1), RleEntry::Live(1)],
    };
    assert_eq!(rle.dimension(), (2, 9));
}

#[test]
fn valid_patterns() {
    assert!(Rle { pattern: vec![] }.is_valid());
    assert!(Rle { pattern: vec![RleEntry::Live(1)] }.is_valid());
    assert!(Rle { pattern: vec![RleEntry::Live(usize::MAX)] }.is_valid());
    assert!(Rle { pattern: vec![RleEntry::NewRow(usize::MAX)] }.is_valid());
    assert!(Rle {
        pattern: vec![RleEntry::Live(usize::MAX), RleEntry::NewRow(1), RleEntry::Dead(usize::MAX)]
    }
    .is_valid());
    assert!(Rle {
        pattern: vec![RleEntry::NewRow(usize::MAX - 1), RleEntry::Dead(1)]
    }
    .is_valid());
}

#[test]
fn a_run_of_length_zero_is_not_valid() {
    assert!(!Rle { pattern: vec![RleEntry::Live(0)] }.is_valid());
    assert!(!Rle { pattern: vec![RleEntry::Dead(0)] }.is_valid());
    assert!(!Rle { pattern: vec![RleEntry::NewRow(0)] }.is_valid());
    assert!(!Rle {
        pattern: vec![RleEntry::Live(2), RleEntry::NewRow(1), RleEntry::Dead(0), RleEntry::Live(1)]
    }
    .is_valid());
}

#[test]
fn a_pattern_too_large_to_measure_is_not_valid() {
    assert!(!Rle {
        pattern: vec![RleEntry::Live(usize::MAX), RleEntry::Dead(1)]
    }
    .is_valid());
    assert!(!Rle {
        pattern: vec![RleEntry::NewRow(usize::MAX), RleEntry::NewRow(1)]
    }
    .is_valid());
    // the open last row is one row more than a usize can count
    assert!(!Rle {
        pattern: vec![RleEntry::NewRow(usize::MAX), RleEntry::Live(1)]
    }
    .is_valid());
}
