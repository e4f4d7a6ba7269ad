use glider::dense_grid::DenseGrid;
use glider::grid::{Grid, RowCol};
use glider::playback::{Input, State};
use glider::rule::Rule;
use glider::universe::Universe;

fn blinker() -> Universe<DenseGrid> {
    let mut g = DenseGrid::new(3, 3);
    for col in 0..3 {
        g.set(RowCol { row: 1, col }, true);
    }
    Universe::new(g, Rule::new(vec![3], vec![2, 3]))
}

#[test]
fn toggling_changes_the_state() {
    assert_eq!(State::Paused.toggled(), State::Running);
    assert_eq!(State::Running.toggled(), State::Paused);
    assert_eq!(State::Running.toggled().toggled(), State::Running);
}

#[test]
fn inputs_and_what_follows() {
    assert_eq!(State::Running.react(Input::Quit), None);
    assert_eq!(State::Paused.react(Input::Quit), None);
    assert_eq!(State::Running.react(Input::TogglePause), Some(State::Paused));
    assert_eq!(State::Paused.react(Input::TogglePause), Some(State::Running));
    assert_eq!(State::Running.react(Input::Other), Some(State::Running));
    assert_eq!(State::Paused.react(Input::Other), Some(State::Paused));
}

#[test]
fn generations_pass_while_running() {
    let u = State::Running.advance(blinker());
    assert_eq!(u.generation, 1);
    assert_eq!(u.live_cells, 3);
    assert!(u.at(0, 1));
    assert!(u.at(1, 1));
    assert!(u.at(2, 1));
    assert!(!u.at(1, 0));
}

#[test]
fn generations_stand_still_while_paused() {
    let u = State::Paused.advance(blinker());
    assert_eq!(u.generation, 0);
    assert_eq!(u.live_cells, 3);
    assert!(u.at(1, 0));
    assert!(u.at(1, 1));
    assert!(u.at(1, 2));
    assert!(!u.at(0, 1));
}
