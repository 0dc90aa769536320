//! Data kept across runs.
use vstd::prelude::*;

verus! {

/// Data that outlives a run of the game.
#[derive(Clone, Copy, Debug, PartialEq, Eq, Structural)]
pub struct Persistent {
    /// Highest score reached across all runs.
    pub high_score: u32,
}

impl Persistent {
    /// Nothing recorded yet.
    pub fn new() -> (r: Persistent)
        ensures
            r.high_score == 0,
    {
        Persistent { high_score: 0 }
    }

    /// Records the score of a finished run: the high score becomes the larger
    /// of the two.
    pub fn record_score(&mut self, score: u32)
        ensures
            final(self).high_score == if score > old(self).high_score {
                score
            } else {
                old(self).high_score
            },
    {
        if score > self.high_score {
            self.high_score = score;
        }
    }
}

} // verus!
