//! The deferred mutation journal: creations and destructions requested during
//! a tick, applied together once the tick's passes are over.
use vstd::prelude::*;

use crate::components::Body;

verus! {

/// One requested change to the set of entities.
#[derive(Clone, Copy, Debug, PartialEq, Eq, Structural)]
pub enum Command {
    /// Create an entity with these components.
    Spawn(Body),
    /// Destroy the entity with this identity.
    Despawn(u64),
}

/// Changes requested during a tick, in the order requested.
pub struct Journal {
    commands: Vec<Command>,
}

impl View for Journal {
    type V = Seq<Command>;

    closed spec fn view(&self) -> Seq<Command> {
        self.commands@
    }
}

impl Journal {
    /// An empty journal.
    pub fn new() -> (r: Journal)
        ensures
            r@ == Seq::<Command>::empty(),
    {
        Journal { commands: Vec::new() }
    }

    /// Requests the creation of an entity.
    pub fn spawn(&mut self, body: Body)
        ensures
            final(self)@ == old(self)@.push(Command::Spawn(body)),
    {
        self.commands.push(Command::Spawn(body));
    }

    /// Requests the destruction of an entity.
    pub fn despawn(&mut self, id: u64)
        ensures
            final(self)@ == old(self)@.push(Command::Despawn(id)),
    {
        self.commands.push(Command::Despawn(id));
    }

    /// The requested changes, in order.
    pub fn commands(&self) -> (r: &Vec<Command>)
        ensures
            r@ == self@,
    {
        &self.commands
    }
}

} // verus!
