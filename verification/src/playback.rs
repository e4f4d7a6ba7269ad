use vstd::prelude::*;
use crate::grid::Grid;
use crate::universe::Universe;

verus! {

/// Whether the generations pass or stand still.
#[derive(Clone, Copy, Debug, PartialEq, Eq)]
pub enum State {
    Paused,
    Running,
}

/// What a viewer asks for between two frames.
#[derive(Clone, Copy, Debug, PartialEq, Eq)]
pub enum Input {
    /// To end the show.
    Quit,
    /// To halt the generations, or to let them pass again.
    TogglePause,
    /// Nothing that changes the state.
    Other,
}

impl State {
    /// The other state.
    pub fn toggled(self) -> (next: State)
        ensures
            next == match self {
                State::Paused => State::Running,
                State::Running => State::Paused,
            },
    {
        match self {
            State::Paused => State::Running,
            State::Running => State::Paused,
        }
    }

    /// The state after an input; `None` where the show ends.
    pub fn react(self, input: Input) -> (next: Option<State>)
        ensures
            next == match input {
                Input::Quit => None::<State>,
                Input::TogglePause => Some(
                    match self {
                        State::Paused => State::Running,
                        State::Running => State::Paused,
                    },
                ),
                Input::Other => Some(self),
            },
    {
        match input {
            Input::Quit => None,
            Input::TogglePause => Some(self.toggled()),
            Input::Other => Some(self),
        }
    }

    /// The universe of the next frame: the next generation while running,
    /// the same universe while paused.
    pub fn advance<G: Grid>(self, universe: Universe<G>) -> (shown: Universe<G>)
        requires
            universe.wf(),
            self is Running ==> universe.generation < u64::MAX,
        ensures
            shown.wf(),
            shown.rule == universe.rule,
            self is Paused ==> shown == universe,
            self is Running ==> shown.generation == universe.generation + 1
                && shown.grid.board() == universe.grid.board().step(universe.rule@),
    {
        match self {
            State::Paused => universe,
            State::Running => universe.tick(),
        }
    }
}

} // verus!
