//! How the things in the arena respond to being pushed or drilled.

use vstd::prelude::*;
use crate::area::Area;
use crate::cooldown::{DRILL_TICKS, MOVE_TICKS};
use crate::entity::Entity;
use crate::invariants::{
    lemma_drill_preserves_soundness, lemma_drill_preserves_uniqueness,
    lemma_go_preserves_soundness, lemma_go_preserves_uniqueness,
};
use crate::space::{Direction, Position};

verus! {

/// How an entity responds when another one enters its cell.
#[derive(Copy, Clone, PartialEq, Eq, Structural, Debug)]
pub enum Pushable {
    /// It moves on if it can and is destroyed if it cannot: a bot.
    Squishable,
    /// It moves on if it can and stays if it cannot: a block.
    Heavy,
    /// It stays, and whoever enters is destroyed: an abyss.
    DestroysEnterer,
}

/// What happens to an entity that pushes its way into a cell.
#[derive(Copy, Clone, PartialEq, Eq, Structural, Debug)]
pub enum PushResult {
    /// The cell has been cleared and the enterer moves in.
    Success,
    /// What stands in the cell does not give way, and the enterer stays.
    TooHeavy,
    /// The enterer is destroyed.
    DestroysEnterer,
}

/// What happens to an entity that drills its way into a cell.
#[derive(Copy, Clone, PartialEq, Eq, Structural, Debug)]
pub enum DrillResult {
    /// The cell has been cleared and the enterer moves in.
    Success,
    /// The enterer is destroyed.
    DestroysEnterer,
}

impl Area {
    /// Pushes into the cell `target` in `direction`, behind `chain` entities
    /// that are being pushed already, and says what becomes of the enterer.
    pub fn push_impl(&mut self, target: Position, direction: Direction, chain: u8) -> (r:
        PushResult)
        requires
            old(self)@.positions_unique(),
        ensures
            (final(self)@, r) == old(self)@.push(target, direction, chain as nat),
        decreases 2 - chain,
    {
        match self.occupant(target) {
            None => PushResult::Success,
            Some(entity) => {
                let destination = target + direction;
                match self.pushables.of(entity) {
                    None => PushResult::TooHeavy,
                    Some(Pushable::Squishable) => {
                        if chain > 1 {
                            PushResult::TooHeavy
                        } else {
                            match self.push_impl(destination, direction, chain + 1) {
                                PushResult::Success => self.positions.set(entity, destination),
                                PushResult::TooHeavy | PushResult::DestroysEnterer => {
                                    self.remove(entity)
                                },
                            }
                            PushResult::Success
                        }
                    },
                    Some(Pushable::Heavy) => {
                        if chain > 0 {
                            PushResult::TooHeavy
                        } else {
                            match self.push_impl(destination, direction, chain + 1) {
                                PushResult::Success => {
                                    self.positions.set(entity, destination);
                                    PushResult::Success
                                },
                                PushResult::TooHeavy => PushResult::TooHeavy,
                                PushResult::DestroysEnterer => {
                                    self.remove(entity);
                                    PushResult::Success
                                },
                            }
                        }
                    },
                    Some(Pushable::DestroysEnterer) => PushResult::DestroysEnterer,
                }
            },
        }
    }

    /// Pushes into the cell `target` in `direction` and says what becomes of
    /// the enterer.
    pub fn push(&mut self, target: Position, direction: Direction) -> (r: PushResult)
        requires
            old(self)@.positions_unique(),
        ensures
            (final(self)@, r) == old(self)@.push(target, direction, 0),
    {
        self.push_impl(target, direction, 0)
    }

    /// Lets the entity step in the direction, pushing what stands in its
    /// way, and says how that went: nothing for an entity that does not
    /// stand on the grid.
    pub fn go(&mut self, entity: Entity, direction: Direction) -> (r: Option<PushResult>)
        requires
            old(self)@.positions_unique(),
        ensures
            (final(self)@, r) == old(self)@.go(entity, direction),
            r is Some <==> old(self)@.positions.contains_key(entity),
            final(self)@.positions_unique(),
            old(self)@.sound() ==> final(self)@.sound(),
    {
        proof {
            lemma_go_preserves_uniqueness(self@, entity, direction);
            if self@.sound() {
                lemma_go_preserves_soundness(self@, entity, direction);
            }
        }
        match self.positions.of(entity) {
            None => None,
            Some(position) => {
                let destination = position + direction;
                let push_result = self.push(destination, direction);
                match push_result {
                    PushResult::Success => {
                        self.positions.set(entity, destination);
                        self.acted(entity, MOVE_TICKS);
                    },
                    PushResult::DestroysEnterer => self.remove(entity),
                    PushResult::TooHeavy => self.acted(entity, MOVE_TICKS),
                };
                Some(push_result)
            },
        }
    }

    /// Drills into the cell and says what becomes of the enterer.
    pub fn do_drill(&mut self, target: Position) -> (r: DrillResult)
        requires
            old(self)@.positions_unique(),
        ensures
            (final(self)@, r) == old(self)@.do_drill(target),
    {
        match self.occupant(target) {
            None => DrillResult::Success,
            Some(entity) => {
                match self.pushables.of(entity) {
                    Some(Pushable::DestroysEnterer) => DrillResult::DestroysEnterer,
                    Some(Pushable::Squishable) | Some(Pushable::Heavy) | None => {
                        self.remove(entity);
                        DrillResult::Success
                    },
                }
            },
        }
    }

    /// Lets the entity drill in the direction, destroying what stands in its
    /// way, and says how that went: nothing for an entity that does not
    /// stand on the grid.
    pub fn drill(&mut self, entity: Entity, direction: Direction) -> (r: Option<DrillResult>)
        requires
            old(self)@.positions_unique(),
        ensures
            (final(self)@, r) == old(self)@.drill(entity, direction),
            r is Some <==> old(self)@.positions.contains_key(entity),
            final(self)@.positions_unique(),
            old(self)@.sound() ==> final(self)@.sound(),
    {
        proof {
            lemma_drill_preserves_uniqueness(self@, entity, direction);
            if self@.sound() {
                lemma_drill_preserves_soundness(self@, entity, direction);
            }
        }
        match self.positions.of(entity) {
            None => None,
            Some(position) => {
                let destination = position + direction;
                let drill_result = self.do_drill(destination);
                match drill_result {
                    DrillResult::Success => self.positions.set(entity, destination),
                    DrillResult::DestroysEnterer => self.remove(entity),
                };
                self.acted(entity, DRILL_TICKS);
                Some(drill_result)
            },
        }
    }
}

} // verus!
