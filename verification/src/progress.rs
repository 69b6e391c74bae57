//! Why a round ends: every turn of an actor uses up some of what the actors
//! have left to do.

use vstd::prelude::*;
use crate::command::{parse, Command};
use crate::entity::Entity;
use crate::notification::Notification;
use crate::space::{Direction, Position};
use crate::world::World;

verus! {

impl World {
    /// The turns that the entity has yet to sit out.
    pub open spec fn cooldown_of(self, entity: Entity) -> nat {
        if self.cooldowns.contains_key(entity) {
            self.cooldowns[entity] as nat
        } else {
            0
        }
    }

    /// A bound on the turns that the entity can still take before its input
    /// runs dry: 0 for an entity without an input; for an actor, one for the
    /// turn in which it is disconnected, six for each byte of its input, and
    /// one for each turn that it has yet to sit out.
    pub open spec fn weight(self, entity: Entity) -> nat {
        if self.inputs.contains_key(entity) {
            1 + 6 * self.inputs[entity].len() + self.cooldown_of(entity)
        } else {
            0
        }
    }

    /// The weights of the entities that were made before the `count`-th,
    /// added up.
    pub open spec fn burden_below(self, count: nat) -> nat
        decreases count,
    {
        if count == 0 {
            0
        } else {
            self.burden_below((count - 1) as nat) + self.weight(Entity((count - 1) as u32))
        }
    }

    /// The weights of all entities, added up.
    pub open spec fn burden(self) -> nat {
        self.burden_below(0x1_0000_0000)
    }
}

/// Whether every actor of `after` was an actor of `before` with the same
/// input and the same cooldown.
pub open spec fn settled(before: World, after: World) -> bool {
    forall|entity: Entity| #[trigger]
        after.inputs.contains_key(entity) ==> before.inputs.contains_key(entity)
            && after.inputs[entity] == before.inputs[entity] && after.cooldown_of(entity)
            == before.cooldown_of(entity)
}

/// Whether no entity weighs more in `after` than in `before`.
pub open spec fn lighter(before: World, after: World) -> bool {
    forall|entity: Entity| #[trigger] after.weight(entity) <= before.weight(entity)
}

/// A push leaves the inputs and cooldowns of the actors that it leaves.
pub proof fn lemma_push_settled(world: World, target: Position, direction: Direction, chain: nat)
    ensures
        settled(world, world.push(target, direction, chain).0),
    decreases 2 - chain,
{
    match world.occupant(target) {
        None => {},
        Some(entity) => {
            let destination = target.step(direction);
            if chain <= 1 {
                lemma_push_settled(world, destination, direction, chain + 1);
            }
        },
    }
}

/// No turn makes any entity heavier, and the turn of an actor makes that
/// actor lighter.
pub proof fn lemma_act_lightens(world: World, bot: Entity)
    ensures
        lighter(world, world.act(bot)),
        world.inputs.contains_key(bot) ==> world.act(bot).weight(bot) < world.weight(bot),
{
    let (ticked, state) = world.tick(bot);
    let told = ticked.notify(bot, Notification::YourTurn);
    if state == crate::cooldown::CooldownState::Ready && told.inputs.contains_key(bot) {
        let (command, rest) = parse(told.inputs[bot]);
        let read = told.consumed(bot, rest);
        let after = read.perform(bot, command);
        assert(told.inputs[bot] == world.inputs[bot]);
        assert(read.cooldown_of(bot) == 0);
        match command {
            Command::Move(direction) => {
                if read.positions.contains_key(bot) {
                    let destination = read.positions[bot].step(direction);
                    lemma_push_settled(read, destination, direction, 0);
                }
            },
            _ => {},
        }
        assert(world.act(bot) == after);
        assert forall|entity: Entity| #[trigger] after.weight(entity) <= world.weight(entity) by {
            if entity != bot {
                if after.inputs.contains_key(entity) {
                    assert(read.inputs.contains_key(entity));
                }
            }
        }
    }
}

/// Where no entity has become heavier, the burden has not grown.
pub proof fn lemma_burden_monotone(before: World, after: World, count: nat)
    requires
        lighter(before, after),
    ensures
        after.burden_below(count) <= before.burden_below(count),
    decreases count,
{
    if count > 0 {
        lemma_burden_monotone(before, after, (count - 1) as nat);
        assert(after.weight(Entity((count - 1) as u32)) <= before.weight(
            Entity((count - 1) as u32),
        ));
    }
}

/// Where no entity has become heavier and one has become lighter, the
/// burden has shrunk.
pub proof fn lemma_burden_shrinks(before: World, after: World, entity: Entity, count: nat)
    requires
        lighter(before, after),
        after.weight(entity) < before.weight(entity),
        entity.0 < count,
    ensures
        after.burden_below(count) < before.burden_below(count),
    decreases count,
{
    assert(after.weight(Entity((count - 1) as u32)) <= before.weight(Entity((count - 1) as u32)));
    if entity.0 == count - 1 {
        lemma_burden_monotone(before, after, (count - 1) as nat);
        assert(Entity((count - 1) as u32) == entity);
    } else {
        lemma_burden_shrinks(before, after, entity, (count - 1) as nat);
    }
}

/// A sequence of turns makes no entity heavier, and makes the first of the
/// entities lighter if it is an actor.
pub proof fn lemma_act_vec_lightens(world: World, entities: Seq<Entity>)
    ensures
        lighter(world, world.act_vec(entities)),
        entities.len() > 0 && world.inputs.contains_key(entities[0]) ==> world.act_vec(
            entities,
        ).weight(entities[0]) < world.weight(entities[0]),
    decreases entities.len(),
{
    if entities.len() > 0 {
        let before = world.act_vec(entities.drop_last());
        lemma_act_vec_lightens(world, entities.drop_last());
        lemma_act_lightens(before, entities.last());
        let after = world.act_vec(entities);
        assert forall|entity: Entity| #[trigger] after.weight(entity) <= world.weight(entity) by {
            assert(after.weight(entity) <= before.weight(entity));
            assert(before.weight(entity) <= world.weight(entity));
        }
        if entities.len() == 1 {
            assert(entities.drop_last() =~= Seq::<Entity>::empty());
            assert(before == world);
        } else {
            assert(entities.drop_last()[0] == entities[0]);
            assert(after.weight(entities[0]) <= before.weight(entities[0]));
        }
    }
}

/// A pass over an arena that has an actor shrinks the burden.
pub proof fn lemma_pass_shrinks_burden(world: World)
    requires
        world.is_roll(world.actors()),
        world.actors().len() > 0,
    ensures
        world.pass().burden() < world.burden(),
{
    let first = world.actors()[0];
    assert(world.actors().contains(first));
    lemma_act_vec_lightens(world, world.actors());
    lemma_burden_shrinks(world, world.pass(), first, 0x1_0000_0000);
}

} // verus!
