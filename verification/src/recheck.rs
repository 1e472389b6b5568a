//! The re-check trigger.

use crate::command::{step, Command, EntityCommands};
use crate::world::EntityWorldMut;
use vstd::prelude::*;

verus! {

/// Forces an entity to be checked again: clears `Checked` and `Invalid`, so
/// that every check of the entity's kind evaluates it in the next cycle.
pub trait CheckAgain: Sized {
    fn check_again(self) -> Self;
}

/// Through the queue, the markers are cleared at the next synchronisation
/// point.
impl<'a> CheckAgain for EntityCommands<'a> {
    fn check_again(self) -> (h: Self)
        ensures
            h.entity == self.entity,
            h.commands@ == old(self.commands)@.push(Command::CheckAgain(self.entity)),
            *final(h.commands) == *final(self.commands),
    {
        let EntityCommands { entity, commands } = self;
        commands.push(Command::CheckAgain(entity));
        EntityCommands { entity, commands }
    }
}

/// On the store itself, the markers are cleared at once.
impl<'w> CheckAgain for EntityWorldMut<'w> {
    fn check_again(self) -> (h: Self)
        ensures
            h.entity == self.entity,
            h.world@ == step(old(self.world)@, Command::CheckAgain(self.entity)),
            old(self.world).wf() ==> h.world.wf(),
            *final(h.world) == *final(self.world),
    {
        let EntityWorldMut { entity, world } = self;
        world.check_again(entity);
        EntityWorldMut { entity, world }
    }
}

} // verus!
