//! A plain register of the cells that bots stand in.

use vstd::prelude::*;
use crate::space::Position;

verus! {

/// The reason a bot could not be made or moved.
#[derive(Copy, Clone, PartialEq, Eq, Structural, Debug)]
pub enum BotError {
    /// No bot stands in the cell that the move starts from.
    NotFound,
    /// A bot stands in the cell already.
    AlreadyOccupied,
}

/// The cells in which bots stand, in the order in which the bots were made.
pub struct Bots {
    pub instances: Vec<Position>,
}

impl View for Bots {
    type V = Seq<Position>;

    open spec fn view(&self) -> Seq<Position> {
        self.instances@
    }
}

impl Bots {
    /// A register without bots.
    pub fn new() -> (r: Bots)
        ensures
            r@ == Seq::<Position>::empty(),
    {
        Bots { instances: Vec::new() }
    }

    /// Makes a bot in the cell, unless one stands there already.
    pub fn make(&mut self, position: Position) -> (r: Result<(), BotError>)
        ensures
            old(self)@.contains(position) ==> r == Err::<(), BotError>(BotError::AlreadyOccupied)
                && final(self)@ == old(self)@,
            !old(self)@.contains(position) ==> r is Ok && final(self)@ == old(self)@.push(
                position,
            ),
            old(self)@.no_duplicates() ==> final(self)@.no_duplicates(),
    {
        if self.occupied(position) {
            return Err(BotError::AlreadyOccupied);
        }
        self.instances.push(position);
        Ok(())
    }

    /// Whether a bot stands in the cell.
    pub fn occupied(&self, position: Position) -> (r: bool)
        ensures
            r == self@.contains(position),
    {
        let mut i: usize = 0;
        while i < self.instances.len()
            invariant
                i <= self@.len(),
                forall|j: int| 0 <= j < i ==> self@[j] != position,
            decreases self@.len() - i,
        {
            if self.instances[i] == position {
                return true;
            }
            i = i + 1;
        }
        false
    }

    /// Moves the bot that stands in `from` to `to`. Fails, and changes
    /// nothing, where a bot stands in `to` already, and else where none
    /// stands in `from`. Of several bots in `from` the one made first moves.
    pub fn shift(&mut self, from: Position, to: Position) -> (r: Result<(), BotError>)
        ensures
            old(self)@.contains(to) ==> r == Err::<(), BotError>(BotError::AlreadyOccupied)
                && final(self)@ == old(self)@,
            !old(self)@.contains(to) && !old(self)@.contains(from) ==> r == Err::<(), BotError>(
                BotError::NotFound,
            ) && final(self)@ == old(self)@,
            !old(self)@.contains(to) && old(self)@.contains(from) ==> r is Ok && final(self)@
                == old(self)@.update(old(self)@.index_of_first(from)->Some_0, to),
            old(self)@.no_duplicates() ==> final(self)@.no_duplicates(),
    {
        if self.occupied(to) {
            return Err(BotError::AlreadyOccupied);
        }
        let mut i: usize = 0;
        while i < self.instances.len()
            invariant
                i <= self@.len(),
                self@ == old(self)@,
                !old(self)@.contains(to),
                forall|j: int| 0 <= j < i ==> self@[j] != from,
            decreases self@.len() - i,
        {
            if self.instances[i] == from {
                self.instances[i] = to;
                proof {
                    old(self)@.index_of_first_ensures(from);
                    let first = old(self)@.index_of_first(from);
                    assert(old(self)@.contains(from));
                    assert(first == Some(i as int));
                    assert forall|a: int, b: int|
                        0 <= a < self@.len() && 0 <= b < self@.len() && a != b && old(
                            self,
                        )@.no_duplicates() implies self@[a] != self@[b] by {
                        if a == i {
                            assert(old(self)@[b] != to);
                        } else if b == i {
                            assert(old(self)@[a] != to);
                        }
                    }
                }
                return Ok(());
            }
            i = i + 1;
        }
        Err(BotError::NotFound)
    }
}

} // verus!
