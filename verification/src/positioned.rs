//! Finding entities by the cell in which they stand.

use vstd::prelude::*;
use crate::entity::{Components, Entity};
use crate::space::Position;

verus! {

impl Components<Position> {
    /// An entity that stands in the cell, if there is one.
    pub fn at(&self, focus: Position) -> (r: Option<Entity>)
        ensures
            match r {
                Some(entity) => self@.contains_key(entity) && self@[entity] == focus,
                None => forall|entity: Entity|
                    self@.contains_key(entity) ==> self@[entity] != focus,
            },
    {
        let entities = self.entities();
        let mut i: usize = 0;
        while i < entities.len()
            invariant
                i <= entities@.len(),
                forall|entity: Entity| entities@.contains(entity) <==> self@.contains_key(entity),
                forall|j: int| 0 <= j < i ==> self@[entities@[j]] != focus,
            decreases entities@.len() - i,
        {
            let entity = entities[i];
            assert(entities@.contains(entity));
            match self.of(entity) {
                Some(position) => {
                    if position == focus {
                        return Some(entity);
                    }
                },
                None => {},
            }
            i = i + 1;
        }
        assert forall|entity: Entity| self@.contains_key(entity) implies self@[entity]
            != focus by {
            assert(entities@.contains(entity));
            let j = choose|j: int| 0 <= j < entities@.len() && entities@[j] == entity;
            assert(self@[entities@[j]] != focus);
        }
        None
    }

    /// Whether some entity stands in the cell.
    pub fn occupied(&self, focus: Position) -> (r: bool)
        ensures
            r == exists|entity: Entity| self@.contains_key(entity) && self@[entity] == focus,
    {
        match self.at(focus) {
            Some(entity) => {
                assert(self@.contains_key(entity) && self@[entity] == focus);
                true
            },
            None => false,
        }
    }

    /// Puts the entity in the cell, if it stands on the grid.
    pub fn set(&mut self, entity: Entity, destination: Position)
        ensures
            final(self)@ == (if old(self)@.contains_key(entity) {
                old(self)@.insert(entity, destination)
            } else {
                old(self)@
            }),
    {
        match self.of_mut_ref(entity) {
            None => (),
            Some(position) => *position = destination,
        }
    }
}

} // verus!
