//! The turns that a bot sits out after it has acted.

use vstd::prelude::*;
use crate::area::Area;
use crate::entity::Entity;

verus! {

/// Whether a bot may act in this turn.
#[derive(Copy, Clone, PartialEq, Eq, Structural, Debug)]
pub enum CooldownState {
    Ready,
    Waiting,
}

/// The number of turns that a move takes, the turn of the move included.
pub const MOVE_TICKS: u8 = 3;

/// The number of turns that drilling takes, the turn of the drilling
/// included.
pub const DRILL_TICKS: u8 = 5;

impl Area {
    /// Makes the entity sit out turns: it will be ready again in the
    /// `ticks_used`-th turn from now.
    pub fn acted(&mut self, entity: Entity, ticks_used: u8)
        requires
            ticks_used >= 1,
        ensures
            final(self)@ == old(self)@.acted(entity, ticks_used),
    {
        self.cooldowns.attach(entity, ticks_used);
    }

    /// Lets one turn pass for the entity and says whether it may act in it.
    pub fn tick(&mut self, entity: Entity) -> (r: CooldownState)
        ensures
            (final(self)@, r) == old(self)@.tick(entity),
    {
        match self.cooldowns.of(entity) {
            None => CooldownState::Ready,
            Some(value) => {
                if value > 1 {
                    self.cooldowns.attach(entity, value - 1);
                    CooldownState::Waiting
                } else {
                    self.cooldowns.detach(entity);
                    CooldownState::Ready
                }
            },
        }
    }
}

} // verus!
