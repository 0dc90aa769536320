//! Teams, which decide whether a collision may deal damage.
use vstd::prelude::*;

verus! {

/// Team of an entity.
#[derive(Clone, Copy, Debug, PartialEq, Eq, Structural, Hash)]
pub enum Team {
    Neutral,
    Player,
    Enemy,
}

impl Team {
    /// Whether an entity of team `self` can hurt one of team `other`:
    /// exactly when the teams differ.
    pub fn can_hurt(&self, other: &Team) -> (r: bool)
        ensures
            r == (*self != *other),
    {
        *self != *other
    }
}

impl Default for Team {
    /// Entities belong to no side unless told otherwise.
    fn default() -> (r: Team)
        ensures
            r == Team::Neutral,
    {
        Team::Neutral
    }
}

} // verus!
