//! The game-state layer above the simulation: which screen is active, and
//! what moves the game from one to the next.
use vstd::prelude::*;

use crate::persist::Persistent;

verus! {

/// The screen the game is on.
#[derive(Clone, Copy, Debug, PartialEq, Eq, Structural)]
pub enum GameState {
    /// Title screen; the first state.
    MainMenu,
    /// The simulation runs.
    Running,
    /// The simulation is halted.
    Paused,
    /// The player has died.
    GameOver,
}

/// What happened during a frame, as far as the state layer cares.
#[derive(Clone, Copy, Debug, PartialEq, Eq, Structural)]
pub struct Inputs {
    /// The start button was clicked.
    pub start: bool,
    /// The escape key was pressed.
    pub escape: bool,
    /// The running tick left the player at or below zero health.
    pub player_dead: bool,
}

/// The state that follows `s` given a frame's inputs: the menu starts a
/// game; a running game ends when the player dies, and otherwise pauses on
/// escape; escape resumes a paused game and leaves the game-over screen for
/// the menu.
pub open spec fn next_state(s: GameState, i: Inputs) -> GameState {
    match s {
        GameState::MainMenu => if i.start {
            GameState::Running
        } else {
            GameState::MainMenu
        },
        GameState::Running => if i.player_dead {
            GameState::GameOver
        } else if i.escape {
            GameState::Paused
        } else {
            GameState::Running
        },
        GameState::Paused => if i.escape {
            GameState::Running
        } else {
            GameState::Paused
        },
        GameState::GameOver => if i.escape {
            GameState::MainMenu
        } else {
            GameState::GameOver
        },
    }
}

impl GameState {
    /// Moves to the state that a frame's inputs lead to.
    pub fn update(&mut self, inputs: Inputs)
        ensures
            *final(self) == next_state(*old(self), inputs),
    {
        let next = match *self {
            GameState::MainMenu => if inputs.start {
                GameState::Running
            } else {
                GameState::MainMenu
            },
            GameState::Running => if inputs.player_dead {
                GameState::GameOver
            } else if inputs.escape {
                GameState::Paused
            } else {
                GameState::Running
            },
            GameState::Paused => if inputs.escape {
                GameState::Running
            } else {
                GameState::Paused
            },
            GameState::GameOver => if inputs.escape {
                GameState::MainMenu
            } else {
                GameState::GameOver
            },
        };
        *self = next;
    }
}

/// Ends a frame: moves to the next state and, when a running game ends with
/// the player's death, records the run's score as a high score candidate.
/// Returns whether the game just ended, so that the caller saves `progress`.
pub fn end_frame(state: &mut GameState, inputs: Inputs, score: u32, progress: &mut Persistent) -> (game_ended: bool)
    ensures
        *final(state) == next_state(*old(state), inputs),
        game_ended == (*old(state) == GameState::Running && inputs.player_dead),
        game_ended ==> final(progress).high_score == if score > old(progress).high_score {
            score
        } else {
            old(progress).high_score
        },
        !game_ended ==> *final(progress) == *old(progress),
{
    let game_ended = *state == GameState::Running && inputs.player_dead;
    if game_ended {
        progress.record_score(score);
    }
    state.update(inputs);
    game_ended
}

} // verus!
