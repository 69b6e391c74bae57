//! The arena as contracts see it: what each entity is and holds, and what
//! each operation of the game makes of that.

use vstd::prelude::*;
use crate::appearance::Appearance;
use crate::command::{parse, Command};
use crate::cooldown::CooldownState;
use crate::entity::Entity;
use crate::notification::Notification;
use crate::pushable::{DrillResult, PushResult, Pushable};
use crate::space::{Direction, Position};
use crate::stream::Sink;

verus! {

/// The state of an arena.
pub ghost struct World {
    /// The cell of each entity that stands on the grid.
    pub positions: Map<Entity, Position>,
    /// What each entity looks like.
    pub appearances: Map<Entity, Appearance>,
    /// How each entity responds to a push.
    pub pushables: Map<Entity, Pushable>,
    /// The bytes that each bot has sent and the arena has not read yet.
    pub inputs: Map<Entity, Seq<u8>>,
    /// The sink of each bot, with what the arena has written to it.
    pub outputs: Map<Entity, Sink>,
    /// The turns that each bot has yet to sit out, this one included.
    pub cooldowns: Map<Entity, u8>,
    /// The streams of the bots that were destroyed, oldest first.
    pub waiting: Seq<(Seq<u8>, Sink)>,
    /// The number of entities made so far.
    pub next_id: u32,
}

impl World {
    /// The arena in which nothing has been made.
    pub open spec fn empty() -> World {
        World {
            positions: Map::empty(),
            appearances: Map::empty(),
            pushables: Map::empty(),
            inputs: Map::empty(),
            outputs: Map::empty(),
            cooldowns: Map::empty(),
            waiting: Seq::empty(),
            next_id: 0,
        }
    }

    /// Whether the entity stands in the cell.
    pub open spec fn occupies(self, entity: Entity, position: Position) -> bool {
        self.positions.contains_key(entity) && self.positions[entity] == position
    }

    /// Whether some entity stands in the cell.
    pub open spec fn occupied(self, position: Position) -> bool {
        exists|entity: Entity| self.occupies(entity, position)
    }

    /// An entity that stands in the cell, if there is one. Where positions
    /// are unique it is the only one.
    pub open spec fn occupant(self, position: Position) -> Option<Entity> {
        if self.occupied(position) {
            Some(choose|entity: Entity| self.occupies(entity, position))
        } else {
            None
        }
    }

    /// No two entities stand in the same cell.
    pub open spec fn positions_unique(self) -> bool {
        forall|a: Entity, b: Entity|
            #![trigger self.positions[a], self.positions[b]]
            self.positions.contains_key(a) && self.positions.contains_key(b) && self.positions[a]
                == self.positions[b] ==> a == b
    }

    /// Whether an entity that looks like `appearance` may respond to a push
    /// like `pushable`: bots are squishable, blocks are heavy, and an abyss
    /// destroys whoever enters.
    pub open spec fn kind_matches(appearance: Appearance, pushable: Pushable) -> bool {
        ||| appearance == Appearance::Bot && pushable == Pushable::Squishable
        ||| appearance == Appearance::Block && pushable == Pushable::Heavy
        ||| appearance == Appearance::Abyss && pushable == Pushable::DestroysEnterer
    }

    /// Every entity has an appearance exactly if it responds to pushes, and
    /// then the two match.
    pub open spec fn kinds_consistent(self) -> bool {
        forall|entity: Entity|
            #![trigger self.appearances.contains_key(entity)]
            #![trigger self.pushables.contains_key(entity)]
            (self.appearances.contains_key(entity) <==> self.pushables.contains_key(entity)) && (
            self.appearances.contains_key(entity) ==> Self::kind_matches(
                self.appearances[entity],
                self.pushables[entity],
            ))
    }

    /// Every entity with an input is a bot that is alive: it has an output,
    /// stands on the grid, looks like a bot and responds to pushes.
    pub open spec fn streams_bound(self) -> bool {
        forall|entity: Entity| #[trigger]
            self.inputs.contains_key(entity) ==> self.outputs.contains_key(entity)
                && self.positions.contains_key(entity) && self.appearances.contains_key(entity)
                && self.appearances[entity] == Appearance::Bot && self.pushables.contains_key(
                entity,
            )
    }

    /// No cooldown is 0: a bot that has nothing to sit out has no cooldown.
    pub open spec fn cooldowns_positive(self) -> bool {
        forall|entity: Entity| #[trigger]
            self.cooldowns.contains_key(entity) ==> self.cooldowns[entity] >= 1
    }

    /// Every entity that stands on the grid, looks like something, responds
    /// to pushes or holds a stream has been made: the next entity to be made
    /// is none of them.
    pub open spec fn entities_made(self) -> bool {
        forall|entity: Entity|
            #![trigger self.positions.contains_key(entity)]
            #![trigger self.appearances.contains_key(entity)]
            #![trigger self.pushables.contains_key(entity)]
            #![trigger self.inputs.contains_key(entity)]
            #![trigger self.outputs.contains_key(entity)]
            self.positions.contains_key(entity) || self.appearances.contains_key(entity)
                || self.pushables.contains_key(entity) || self.inputs.contains_key(entity)
                || self.outputs.contains_key(entity) ==> entity.0 < self.next_id
    }

    /// The properties, besides the uniqueness of positions, that the game
    /// keeps.
    pub open spec fn sound(self) -> bool {
        &&& self.entities_made()
        &&& self.kinds_consistent()
        &&& self.streams_bound()
        &&& self.cooldowns_positive()
    }

    /// What a bot sees in the cell: the appearance of the entity that stands
    /// there, and floor where none does or where it has no appearance.
    pub open spec fn appearance_at(self, position: Position) -> Appearance {
        match self.occupant(position) {
            None => Appearance::Floor,
            Some(entity) => if self.appearances.contains_key(entity) {
                self.appearances[entity]
            } else {
                Appearance::Floor
            },
        }
    }

    /// The arena after a new entity with the given components has been made
    /// in the cell.
    pub open spec fn spawned(
        self,
        position: Position,
        appearance: Appearance,
        pushable: Pushable,
    ) -> World {
        let entity = Entity(self.next_id);
        World {
            positions: self.positions.insert(entity, position),
            appearances: self.appearances.insert(entity, appearance),
            pushables: self.pushables.insert(entity, pushable),
            next_id: (self.next_id + 1) as u32,
            ..self
        }
    }

    /// The arena after every component of the entity has been dropped.
    pub open spec fn disconnect(self, entity: Entity) -> World {
        World {
            positions: self.positions.remove(entity),
            appearances: self.appearances.remove(entity),
            pushables: self.pushables.remove(entity),
            inputs: self.inputs.remove(entity),
            outputs: self.outputs.remove(entity),
            cooldowns: self.cooldowns.remove(entity),
            ..self
        }
    }

    /// The arena after the notification has been sent to the entity. An
    /// entity without a sink gets nothing; one whose sink is closed is
    /// disconnected.
    pub open spec fn notify(self, entity: Entity, notification: Notification) -> World {
        if !self.outputs.contains_key(entity) {
            self
        } else if self.outputs[entity].closed {
            self.disconnect(entity)
        } else {
            World {
                outputs: self.outputs.insert(
                    entity,
                    self.outputs[entity].wrote(notification.bytes()),
                ),
                ..self
            }
        }
    }

    /// The arena after the entity has been destroyed: it is told that it
    /// died, its streams are set aside for the next round if it still has
    /// both, and every component of it is dropped.
    pub open spec fn remove(self, entity: Entity) -> World {
        let told = self.notify(entity, Notification::YouDied);
        let waiting = if told.inputs.contains_key(entity) && told.outputs.contains_key(entity) {
            told.waiting.push((told.inputs[entity], told.outputs[entity]))
        } else {
            told.waiting
        };
        (World { waiting: waiting, ..told }).disconnect(entity)
    }

    /// The arena after the entity, if it stands on the grid, has been put in
    /// the cell.
    pub open spec fn shifted(self, entity: Entity, destination: Position) -> World {
        if self.positions.contains_key(entity) {
            World { positions: self.positions.insert(entity, destination), ..self }
        } else {
            self
        }
    }

    /// The arena after the entity's cooldown has been set.
    pub open spec fn acted(self, entity: Entity, ticks_used: u8) -> World {
        World { cooldowns: self.cooldowns.insert(entity, ticks_used), ..self }
    }

    /// The arena after one turn has passed for the entity, and whether the
    /// entity may act in that turn.
    pub open spec fn tick(self, entity: Entity) -> (World, CooldownState) {
        if !self.cooldowns.contains_key(entity) {
            (self, CooldownState::Ready)
        } else if self.cooldowns[entity] > 1 {
            (
                World {
                    cooldowns: self.cooldowns.insert(
                        entity,
                        (self.cooldowns[entity] - 1) as u8,
                    ),
                    ..self
                },
                CooldownState::Waiting,
            )
        } else {
            (World { cooldowns: self.cooldowns.remove(entity), ..self }, CooldownState::Ready)
        }
    }

    /// The arena after the given number of turns have passed for the
    /// entity.
    pub open spec fn ticked(self, entity: Entity, turns: nat) -> World
        decreases turns,
    {
        if turns == 0 {
            self
        } else {
            self.ticked(entity, (turns - 1) as nat).tick(entity).0
        }
    }

    /// What happens when something enters the cell `target` going in
    /// `direction`, behind `chain` entities that are being pushed already:
    /// the outcome for the enterer, and the arena once whatever stood in the
    /// way has moved on or has been destroyed.
    ///
    /// A bot gives way if at most one entity is being pushed before it: it
    /// moves on where the next cell lets it in and is destroyed where not. A
    /// block gives way only to the first enterer: it moves on where the next
    /// cell lets it in, falls where the next cell is an abyss, and stays
    /// where the next cell is blocked.
    pub open spec fn push(self, target: Position, direction: Direction, chain: nat) -> (
        World,
        PushResult,
    )
        decreases 2 - chain,
    {
        match self.occupant(target) {
            None => (self, PushResult::Success),
            Some(entity) => {
                let destination = target.step(direction);
                if !self.pushables.contains_key(entity) {
                    (self, PushResult::TooHeavy)
                } else {
                    match self.pushables[entity] {
                        Pushable::DestroysEnterer => (self, PushResult::DestroysEnterer),
                        Pushable::Squishable => {
                            if chain > 1 {
                                (self, PushResult::TooHeavy)
                            } else {
                                let (beyond, outcome) = self.push(
                                    destination,
                                    direction,
                                    chain + 1,
                                );
                                match outcome {
                                    PushResult::Success => (
                                        beyond.shifted(entity, destination),
                                        PushResult::Success,
                                    ),
                                    _ => (beyond.remove(entity), PushResult::Success),
                                }
                            }
                        },
                        Pushable::Heavy => {
                            if chain > 0 {
                                (self, PushResult::TooHeavy)
                            } else {
                                let (beyond, outcome) = self.push(
                                    destination,
                                    direction,
                                    chain + 1,
                                );
                                match outcome {
                                    PushResult::Success => (
                                        beyond.shifted(entity, destination),
                                        PushResult::Success,
                                    ),
                                    PushResult::TooHeavy => (beyond, PushResult::TooHeavy),
                                    PushResult::DestroysEnterer => (
                                        beyond.remove(entity),
                                        PushResult::Success,
                                    ),
                                }
                            }
                        },
                    }
                }
            },
        }
    }

    /// What happens when the entity tries to step in the direction: nothing
    /// where it does not stand on the grid. Otherwise it pushes into the
    /// neighbouring cell; it moves there where that succeeds, stays where
    /// the way is blocked, and is destroyed where the cell destroys it. A
    /// bot that is still there afterwards sits out the turns of a move.
    pub open spec fn go(self, entity: Entity, direction: Direction) -> (
        World,
        Option<PushResult>,
    ) {
        if !self.positions.contains_key(entity) {
            (self, None)
        } else {
            let destination = self.positions[entity].step(direction);
            let (pushed, outcome) = self.push(destination, direction, 0);
            match outcome {
                PushResult::Success => (
                    pushed.shifted(entity, destination).acted(entity, 3),
                    Some(outcome),
                ),
                PushResult::DestroysEnterer => (pushed.remove(entity), Some(outcome)),
                PushResult::TooHeavy => (pushed.acted(entity, 3), Some(outcome)),
            }
        }
    }

    /// What happens when something drills into the cell: whatever stands
    /// there is destroyed, unless it destroys whoever enters.
    pub open spec fn do_drill(self, target: Position) -> (World, DrillResult) {
        match self.occupant(target) {
            None => (self, DrillResult::Success),
            Some(entity) => {
                if self.pushables.contains_key(entity) && self.pushables[entity]
                    == Pushable::DestroysEnterer {
                    (self, DrillResult::DestroysEnterer)
                } else {
                    (self.remove(entity), DrillResult::Success)
                }
            },
        }
    }

    /// What happens when the entity drills in the direction: nothing where
    /// it does not stand on the grid. Otherwise it moves into the
    /// neighbouring cell once that has been cleared, or is destroyed by what
    /// stands there; either way the turns of drilling are counted against
    /// it.
    pub open spec fn drill(self, entity: Entity, direction: Direction) -> (
        World,
        Option<DrillResult>,
    ) {
        if !self.positions.contains_key(entity) {
            (self, None)
        } else {
            let destination = self.positions[entity].step(direction);
            let (drilled, outcome) = self.do_drill(destination);
            match outcome {
                DrillResult::Success => (
                    drilled.shifted(entity, destination).acted(entity, 5),
                    Some(outcome),
                ),
                DrillResult::DestroysEnterer => (
                    drilled.remove(entity).acted(entity, 5),
                    Some(outcome),
                ),
            }
        }
    }

    /// The arena after the bot has carried out the command and has been told
    /// the outcome.
    pub open spec fn perform(self, bot: Entity, command: Command) -> World {
        match command {
            Command::LookAt(offset) => {
                if self.positions.contains_key(bot) {
                    self.notify(
                        bot,
                        Notification::YouSee(self.appearance_at(self.positions[bot].plus(offset))),
                    )
                } else {
                    self
                }
            },
            Command::Move(direction) => {
                let (gone, outcome) = self.go(bot, direction);
                match outcome {
                    Some(PushResult::Success) => gone.notify(bot, Notification::Success),
                    Some(PushResult::TooHeavy) => gone.notify(bot, Notification::TooHeavy),
                    _ => gone,
                }
            },
            Command::Drill(direction) => {
                let (drilled, outcome) = self.drill(bot, direction);
                match outcome {
                    Some(DrillResult::Success) => drilled.notify(bot, Notification::Success),
                    _ => drilled,
                }
            },
            Command::Malformed => self.disconnect(bot),
            Command::End => self.disconnect(bot),
        }
    }

    /// The arena after the bot's input has been replaced.
    pub open spec fn consumed(self, bot: Entity, rest: Seq<u8>) -> World {
        World { inputs: self.inputs.insert(bot, rest), ..self }
    }

    /// The first half of a bot's turn: a bot that is cooling down waits;
    /// any other is told that it is its turn. The flag says whether the
    /// bot's command is due: whether it may act and still has an input.
    pub open spec fn begin_turn(self, bot: Entity) -> (World, bool) {
        let (ticked, state) = self.tick(bot);
        if state == CooldownState::Waiting {
            (ticked, false)
        } else {
            let told = ticked.notify(bot, Notification::YourTurn);
            (told, told.inputs.contains_key(bot))
        }
    }

    /// The second half of a bot's turn: the command at the head of its
    /// input is read and carried out.
    pub open spec fn finish_turn(self, bot: Entity) -> World {
        if !self.inputs.contains_key(bot) {
            self
        } else {
            let (command, rest) = parse(self.inputs[bot]);
            self.consumed(bot, rest).perform(bot, command)
        }
    }

    /// The arena after the bot's turn: a bot that is cooling down waits; any
    /// other is told that it is its turn, and the command that it has sent
    /// is read and carried out.
    pub open spec fn act(self, bot: Entity) -> World {
        let (begun, due) = self.begin_turn(bot);
        if due {
            begun.finish_turn(bot)
        } else {
            begun
        }
    }

    /// The arena after the entities have taken their turns, one after the
    /// other.
    pub open spec fn act_vec(self, entities: Seq<Entity>) -> World
        decreases entities.len(),
    {
        if entities.len() == 0 {
            self
        } else {
            self.act_vec(entities.drop_last()).act(entities.last())
        }
    }
}

/// Whether the entities are in the order in which they were made, none of
/// them twice.
pub open spec fn ascending(entities: Seq<Entity>) -> bool {
    forall|i: int, j: int| 0 <= i < j < entities.len() ==> entities[i].0 < entities[j].0
}

impl World {
    /// Whether the sequence lists the actors of the arena: the entities that
    /// hold an input, in the order in which they were made.
    pub open spec fn is_roll(self, entities: Seq<Entity>) -> bool {
        &&& ascending(entities)
        &&& forall|entity: Entity| entities.contains(entity) <==> self.inputs.contains_key(entity)
    }

    /// The actors of the arena, in the order in which they take their turns.
    pub open spec fn actors(self) -> Seq<Entity> {
        choose|entities: Seq<Entity>| self.is_roll(entities)
    }

    /// The arena after every actor has taken one turn.
    pub open spec fn pass(self) -> World {
        self.act_vec(self.actors())
    }

    /// The arena after the given number of passes.
    pub open spec fn passes(self, count: nat) -> World
        decreases count,
    {
        if count == 0 {
            self
        } else {
            self.passes((count - 1) as nat).pass()
        }
    }

    /// Whether the round is over after exactly `count` passes: at most one
    /// actor is left then, and more than one was left before each of the
    /// passes.
    pub open spec fn settles_after(self, count: nat) -> bool {
        &&& self.passes(count).actors().len() <= 1
        &&& forall|earlier: nat| earlier < count ==> self.passes(earlier).actors().len() > 1
    }
}

/// An arena has one roll only: two sequences that list its actors in order
/// are the same.
pub proof fn lemma_roll_unique(world: World, a: Seq<Entity>, b: Seq<Entity>)
    requires
        world.is_roll(a),
        world.is_roll(b),
    ensures
        a == b,
    decreases a.len(),
{
    if a.len() == 0 {
        if b.len() > 0 {
            assert(b.contains(b[0]));
            assert(a.contains(b[0]));
        }
        assert(a =~= b);
    } else {
        let top = a.last();
        assert(a.contains(top));
        assert(b.contains(top));
        let k = choose|k: int| 0 <= k < b.len() && b[k] == top;
        if k < b.len() - 1 {
            assert(b.contains(b.last()));
            assert(a.contains(b.last()));
            let i = choose|i: int| 0 <= i < a.len() && a[i] == b.last();
            assert(a[i].0 <= top.0);
            assert(b[k].0 < b[b.len() - 1].0);
        }
        let rest = World { inputs: world.inputs.remove(top), ..world };
        assert forall|entity: Entity| a.drop_last().contains(entity) <==> rest.inputs.contains_key(
            entity,
        ) by {
            if a.drop_last().contains(entity) {
                let i = choose|i: int| 0 <= i < a.len() - 1 && a.drop_last()[i] == entity;
                assert(a[i] == entity);
                assert(a[i].0 < a[a.len() - 1].0);
                assert(a.contains(entity));
            }
            if rest.inputs.contains_key(entity) {
                assert(a.contains(entity));
                let i = choose|i: int| 0 <= i < a.len() && a[i] == entity;
                assert(a.drop_last()[i] == entity);
            }
        }
        assert forall|entity: Entity| b.drop_last().contains(entity) <==> rest.inputs.contains_key(
            entity,
        ) by {
            if b.drop_last().contains(entity) {
                let i = choose|i: int| 0 <= i < b.len() - 1 && b.drop_last()[i] == entity;
                assert(b[i] == entity);
                assert(b[i].0 < b[b.len() - 1].0);
                assert(b.contains(entity));
            }
            if rest.inputs.contains_key(entity) {
                assert(b.contains(entity));
                let i = choose|i: int| 0 <= i < b.len() && b[i] == entity;
                assert(b.drop_last()[i] == entity);
            }
        }
        lemma_roll_unique(rest, a.drop_last(), b.drop_last());
        assert(a =~= a.drop_last().push(top));
        assert(b =~= b.drop_last().push(top));
    }
}

} // verus!
