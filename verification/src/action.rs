//! The turn engine: one turn of one bot, and the passes that make a round.

use vstd::prelude::*;
use crate::area::Area;
use crate::command::{parse_next, Command};
use crate::cooldown::CooldownState;
use crate::entity::Entity;
use crate::invariants::{
    lemma_act_preserves_soundness, lemma_act_vec_preserves_soundness,
    lemma_notify_preserves_uniqueness, lemma_perform_preserves_uniqueness,
};
use crate::progress::lemma_pass_shrinks_burden;
use crate::notification::Notification;
use crate::pushable::{DrillResult, PushResult};
use crate::world::{ascending, lemma_roll_unique};

verus! {

/// Puts the entity into a list that is in order and does not hold it, at the
/// place that keeps the list in order.
fn insert_in_order(roll: &mut Vec<Entity>, entity: Entity)
    requires
        ascending(old(roll)@),
        !old(roll)@.contains(entity),
    ensures
        ascending(final(roll)@),
        forall|other: Entity|
            final(roll)@.contains(other) <==> old(roll)@.contains(other) || other == entity,
{
    let mut i: usize = 0;
    while i < roll.len() && roll[i].0 < entity.0
        invariant
            i <= roll@.len(),
            roll@ == old(roll)@,
            forall|j: int| 0 <= j < i ==> roll@[j].0 < entity.0,
        decreases roll@.len() - i,
    {
        i = i + 1;
    }
    proof {
        if i < roll@.len() {
            assert(roll@.contains(roll@[i as int]));
        }
    }
    roll.insert(i, entity);
    proof {
        let before = old(roll)@;
        let after = roll@;
        assert(after == before.insert(i as int, entity));
        assert forall|other: Entity| after.contains(other) <==> before.contains(other) || other
            == entity by {
            if after.contains(other) {
                let j = choose|j: int| 0 <= j < after.len() && after[j] == other;
                if j < i {
                    assert(before[j] == other);
                } else if j > i {
                    assert(before[j - 1] == other);
                }
            }
            if before.contains(other) {
                let j = choose|j: int| 0 <= j < before.len() && before[j] == other;
                if j < i {
                    assert(after[j] == other);
                } else {
                    assert(after[j + 1] == other);
                }
            }
            if other == entity {
                assert(after[i as int] == other);
            }
        }
        assert forall|a: int, b: int| 0 <= a < b < after.len() implies after[a].0
            < after[b].0 by {
            if b < i {
            } else if b == i {
            } else if a < i {
                assert(before[b - 1].0 >= before[i as int].0);
            } else if a == i {
                assert(before[b - 1].0 >= before[i as int].0);
                assert(before.contains(before[i as int]));
            } else {
                assert(before[a - 1].0 < before[b - 1].0);
            }
        }
    }
}

impl Area {
    /// Carries out the command for the bot and tells it the outcome.
    pub fn perform(&mut self, bot: Entity, command: Command)
        requires
            old(self)@.positions_unique(),
        ensures
            final(self)@ == old(self)@.perform(bot, command),
            final(self)@.positions_unique(),
    {
        proof {
            lemma_perform_preserves_uniqueness(self@, bot, command);
        }
        match command {
            Command::LookAt(offset) => {
                let here = match self.positions.of(bot) {
                    None => {
                        return ;
                    },
                    Some(here) => here,
                };
                let notification = Notification::YouSee(self.appearance_at(here + offset));
                self.notify(bot, notification);
            },
            Command::Move(direction) => {
                let push_result = self.go(bot, direction);
                match push_result {
                    None => (),
                    Some(PushResult::Success) => self.notify(bot, Notification::Success),
                    Some(PushResult::TooHeavy) => self.notify(bot, Notification::TooHeavy),
                    Some(PushResult::DestroysEnterer) => (),
                };
            },
            Command::Drill(direction) => {
                let drill_result = self.drill(bot, direction);
                match drill_result {
                    None => (),
                    Some(DrillResult::Success) => self.notify(bot, Notification::Success),
                    Some(DrillResult::DestroysEnterer) => (),
                };
            },
            Command::Malformed | Command::End => self.disconnect(bot),
        }
    }

    /// Begins the bot's turn: a bot that is cooling down waits; any other is
    /// told that it is its turn. Says whether the bot's command is due.
    pub fn begin_turn(&mut self, bot: Entity) -> (due: bool)
        ensures
            (final(self)@, due) == old(self)@.begin_turn(bot),
            old(self)@.positions_unique() ==> final(self)@.positions_unique(),
    {
        proof {
            if self@.positions_unique() {
                lemma_notify_preserves_uniqueness(
                    self@.tick(bot).0,
                    bot,
                    Notification::YourTurn,
                );
            }
        }
        if self.tick(bot) == CooldownState::Waiting {
            return false;
        }
        self.notify(bot, Notification::YourTurn);
        self.inputs.attached(bot)
    }

    /// Finishes the bot's turn: reads the command at the head of its input
    /// and carries it out.
    pub fn finish_turn(&mut self, bot: Entity)
        requires
            old(self)@.positions_unique(),
        ensures
            final(self)@ == old(self)@.finish_turn(bot),
            final(self)@.positions_unique(),
    {
        let command = match self.inputs.of_mut_ref(bot) {
            None => {
                return ;
            },
            Some(input) => parse_next(input),
        };
        assert(self@.inputs =~= old(self)@.inputs.insert(
            bot,
            crate::command::parse(old(self)@.inputs[bot]).1,
        ));
        assert(self@.positions == old(self)@.positions);
        self.perform(bot, command);
    }

    /// Gives the bot its turn: a bot that is cooling down waits; any other
    /// is told that it is its turn, and the command that it has sent is read
    /// and carried out.
    pub fn act(&mut self, bot: Entity)
        requires
            old(self)@.positions_unique(),
        ensures
            final(self)@ == old(self)@.act(bot),
            final(self)@.positions_unique(),
            old(self)@.sound() ==> final(self)@.sound(),
    {
        proof {
            if self@.sound() {
                lemma_act_preserves_soundness(self@, bot);
            }
        }
        if self.begin_turn(bot) {
            self.finish_turn(bot);
        }
    }

    /// The entities that hold an input, in the order in which they were
    /// made: the order in which they take their turns.
    pub fn all_actors(&self) -> (r: Vec<Entity>)
        ensures
            self@.is_roll(r@),
            r@ == self@.actors(),
    {
        let entities = self.inputs.entities();
        let mut result: Vec<Entity> = Vec::with_capacity(entities.len());
        let mut i: usize = 0;
        while i < entities.len()
            invariant
                i <= entities@.len(),
                entities@.no_duplicates(),
                ascending(result@),
                forall|entity: Entity|
                    result@.contains(entity) <==> exists|j: int|
                        0 <= j < i && entities@[j] == entity,
            decreases entities@.len() - i,
        {
            let ghost before = result@;
            insert_in_order(&mut result, entities[i]);
            i = i + 1;
            assert forall|entity: Entity|
                result@.contains(entity) <==> exists|j: int|
                    0 <= j < i && entities@[j] == entity by {
                if result@.contains(entity) {
                    if entity == entities@[i - 1] {
                    } else {
                        assert(before.contains(entity));
                        let j = choose|j: int| 0 <= j < i - 1 && entities@[j] == entity;
                        assert(0 <= j < i && entities@[j] == entity);
                    }
                }
                if exists|j: int| 0 <= j < i && entities@[j] == entity {
                    let j = choose|j: int| 0 <= j < i && entities@[j] == entity;
                    if j < i - 1 {
                        assert(before.contains(entity));
                    }
                }
            }
        }
        proof {
            assert forall|entity: Entity| result@.contains(entity) <==> self@.inputs.contains_key(
                entity,
            ) by {
                if result@.contains(entity) {
                    let j = choose|j: int| 0 <= j < i && entities@[j] == entity;
                    assert(entities@.contains(entity));
                }
                if self@.inputs.contains_key(entity) {
                    assert(self.inputs@.contains_key(entity));
                    assert(entities@.contains(entity));
                    let j = choose|j: int| 0 <= j < entities@.len() && entities@[j] == entity;
                    assert(0 <= j < i && entities@[j] == entity);
                }
            }
            lemma_roll_unique(self@, result@, self@.actors());
        }
        result
    }

    /// Gives each of the entities its turn, one after the other.
    pub fn act_vec(&mut self, entities: Vec<Entity>)
        requires
            old(self)@.positions_unique(),
        ensures
            final(self)@ == old(self)@.act_vec(entities@),
            final(self)@.positions_unique(),
            old(self)@.sound() ==> final(self)@.sound(),
    {
        proof {
            if self@.sound() {
                lemma_act_vec_preserves_soundness(self@, entities@);
            }
        }
        let mut i: usize = 0;
        while i < entities.len()
            invariant
                i <= entities@.len(),
                self@.positions_unique(),
                self@ == old(self)@.act_vec(entities@.take(i as int)),
            decreases entities@.len() - i,
        {
            self.act(entities[i]);
            i = i + 1;
            assert(entities@.take(i as int).drop_last() =~= entities@.take(i - 1));
        }
        assert(entities@.take(i as int) =~= entities@);
    }

    /// Plays the round: lets all actors take their turns, pass after pass,
    /// until at most one actor is left, and returns the actors that are
    /// left.
    pub fn act_all(&mut self) -> (winners: Vec<Entity>)
        requires
            old(self)@.positions_unique(),
        ensures
            exists|count: nat|
                old(self)@.settles_after(count) && final(self)@ == old(self)@.passes(count),
            winners@ == final(self)@.actors(),
            winners@.len() <= 1,
            final(self)@.positions_unique(),
            old(self)@.sound() ==> final(self)@.sound(),
    {
        let ghost mut count: nat = 0;
        loop
            invariant
                self@.positions_unique(),
                old(self)@.sound() ==> self@.sound(),
                self@ == old(self)@.passes(count),
                forall|earlier: nat| earlier < count ==> old(self)@.passes(earlier).actors().len() > 1,
            decreases self@.burden(),
        {
            let entities = self.all_actors();
            if entities.len() <= 1 {
                assert(old(self)@.settles_after(count));
                return entities;
            }
            proof {
                lemma_pass_shrinks_burden(self@);
            }
            self.act_vec(entities);
            proof {
                count = count + 1;
            }
        }
    }
}

} // verus!
