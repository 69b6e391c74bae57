//! What every operation of the game preserves.

use vstd::prelude::*;
use crate::appearance::Appearance;
use crate::command::Command;
use crate::entity::Entity;
use crate::notification::Notification;
use crate::pushable::{DrillResult, PushResult, Pushable};
use crate::space::{lemma_step_injective, Direction, Position};
use crate::world::World;

verus! {

/// Whether an entity that a push into `target` has moved may have come to
/// stand in the cell: the push moves what stood in `target` one cell on, and
/// the first push of a chain may move what stood behind that one cell on as
/// well.
pub open spec fn landing(
    target: Position,
    direction: Direction,
    chain: nat,
    position: Position,
) -> bool {
    ||| chain <= 1 && position == target.step(direction)
    ||| chain == 0 && position == target.step(direction).step(direction)
}

/// Whether every entity that stands on the grid in `after` stood there in
/// `before`, in the same cell or in one from which a push into `target` has
/// moved it on.
pub open spec fn moved_on(
    before: World,
    after: World,
    target: Position,
    direction: Direction,
    chain: nat,
) -> bool {
    forall|entity: Entity| #[trigger]
        after.positions.contains_key(entity) ==> before.positions.contains_key(entity) && (
        after.positions[entity] == before.positions[entity] || landing(
            target,
            direction,
            chain,
            after.positions[entity],
        ))
}

/// Sending a notification moves nothing: it leaves every entity where it
/// was, or takes the notified one off the grid.
pub proof fn lemma_notify_positions(world: World, entity: Entity, notification: Notification)
    ensures
        world.notify(entity, notification).positions == world.positions || world.notify(
            entity,
            notification,
        ).positions == world.positions.remove(entity),
{
}

/// Destroying an entity takes it off the grid and moves nothing else.
pub proof fn lemma_remove_positions(world: World, entity: Entity)
    ensures
        world.remove(entity).positions == world.positions.remove(entity),
{
    assert(world.remove(entity).positions =~= world.positions.remove(entity));
}

/// A push keeps positions unique. Where it succeeds it leaves the target
/// cell empty; where it does not it changes nothing. Whatever it has moved,
/// it has moved one cell on in the direction of the push.
pub proof fn lemma_push_preserves_uniqueness(
    world: World,
    target: Position,
    direction: Direction,
    chain: nat,
)
    requires
        world.positions_unique(),
    ensures
        world.push(target, direction, chain).0.positions_unique(),
        world.push(target, direction, chain).1 == PushResult::Success ==> !world.push(
            target,
            direction,
            chain,
        ).0.occupied(target),
        world.push(target, direction, chain).1 != PushResult::Success ==> world.push(
            target,
            direction,
            chain,
        ).0 == world,
        moved_on(world, world.push(target, direction, chain).0, target, direction, chain),
    decreases 2 - chain,
{
    let (after, outcome) = world.push(target, direction, chain);
    match world.occupant(target) {
        None => {},
        Some(entity) => {
            assert(world.occupies(entity, target));
            let destination = target.step(direction);
            lemma_step_injective(target, target, direction);
            lemma_step_injective(destination, destination, direction);
            assert(destination.step(direction) != target);
            let recurses = world.pushables.contains_key(entity) && ((world.pushables[entity]
                == Pushable::Squishable && chain <= 1) || (world.pushables[entity]
                == Pushable::Heavy && chain == 0));
            if recurses {
                let (beyond, inner) = world.push(destination, direction, chain + 1);
                lemma_push_preserves_uniqueness(world, destination, direction, chain + 1);
                lemma_remove_positions(beyond, entity);
                if inner == PushResult::Success {
                    assert(after == beyond.shifted(entity, destination));
                    assert forall|a: Entity, b: Entity|
                        after.positions.contains_key(a) && after.positions.contains_key(b)
                            && after.positions[a] == after.positions[b] implies a == b by {
                        if a != b {
                            if a == entity {
                                assert(beyond.occupies(b, destination));
                            } else if b == entity {
                                assert(beyond.occupies(a, destination));
                            } else {
                                assert(beyond.positions[a] == beyond.positions[b]);
                            }
                        }
                    }
                    assert forall|other: Entity| !after.occupies(other, target) by {
                        if after.occupies(other, target) {
                            if other != entity {
                                assert(beyond.positions.contains_key(other));
                                assert(world.positions[other] == world.positions[entity]);
                            }
                        }
                    }
                } else if after != world {
                    assert(after == beyond.remove(entity));
                    assert forall|other: Entity| !after.occupies(other, target) by {
                        if after.occupies(other, target) {
                            assert(beyond.positions.contains_key(other));
                            assert(world.positions[other] == world.positions[entity]);
                        }
                    }
                }
            }
        },
    }
}

/// Making an entity in an empty cell keeps positions unique.
pub proof fn lemma_spawn_preserves_uniqueness(
    world: World,
    position: Position,
    appearance: Appearance,
    pushable: Pushable,
)
    requires
        world.positions_unique(),
        !world.occupied(position),
    ensures
        world.spawned(position, appearance, pushable).positions_unique(),
{
    let after = world.spawned(position, appearance, pushable);
    let entity = Entity(world.next_id);
    assert forall|a: Entity, b: Entity|
        after.positions.contains_key(a) && after.positions.contains_key(b) && after.positions[a]
            == after.positions[b] implies a == b by {
        if a != b {
            if a == entity {
                assert(world.occupies(b, position));
            } else if b == entity {
                assert(world.occupies(a, position));
            } else {
                assert(world.positions[a] == world.positions[b]);
            }
        }
    }
}

/// Putting an entity in an empty cell keeps positions unique.
pub proof fn lemma_shift_preserves_uniqueness(world: World, entity: Entity, destination: Position)
    requires
        world.positions_unique(),
        !world.occupied(destination),
    ensures
        world.shifted(entity, destination).positions_unique(),
{
    let after = world.shifted(entity, destination);
    assert forall|a: Entity, b: Entity|
        after.positions.contains_key(a) && after.positions.contains_key(b) && after.positions[a]
            == after.positions[b] implies a == b by {
        if a != b {
            if a == entity {
                assert(world.occupies(b, destination));
            } else if b == entity {
                assert(world.occupies(a, destination));
            } else {
                assert(world.positions[a] == world.positions[b]);
            }
        }
    }
}

/// Sending a notification keeps positions unique.
pub proof fn lemma_notify_preserves_uniqueness(
    world: World,
    entity: Entity,
    notification: Notification,
)
    requires
        world.positions_unique(),
    ensures
        world.notify(entity, notification).positions_unique(),
{
    lemma_notify_positions(world, entity, notification);
}

/// Destroying an entity keeps positions unique.
pub proof fn lemma_remove_preserves_uniqueness(world: World, entity: Entity)
    requires
        world.positions_unique(),
    ensures
        world.remove(entity).positions_unique(),
{
    lemma_remove_positions(world, entity);
}

/// A step keeps positions unique: after `go`, no two entities stand in the
/// same cell.
pub proof fn lemma_go_preserves_uniqueness(world: World, entity: Entity, direction: Direction)
    requires
        world.positions_unique(),
    ensures
        world.go(entity, direction).0.positions_unique(),
{
    if world.positions.contains_key(entity) {
        let destination = world.positions[entity].step(direction);
        let (pushed, outcome) = world.push(destination, direction, 0);
        lemma_push_preserves_uniqueness(world, destination, direction, 0);
        match outcome {
            PushResult::Success => {
                lemma_shift_preserves_uniqueness(pushed, entity, destination);
            },
            PushResult::DestroysEnterer => {
                lemma_remove_preserves_uniqueness(pushed, entity);
            },
            PushResult::TooHeavy => {},
        }
    }
}

/// Drilling into a cell keeps positions unique, and where it succeeds it
/// leaves the cell empty.
pub proof fn lemma_do_drill_preserves_uniqueness(world: World, target: Position)
    requires
        world.positions_unique(),
    ensures
        world.do_drill(target).0.positions_unique(),
        world.do_drill(target).1 == DrillResult::Success ==> !world.do_drill(target).0.occupied(
            target,
        ),
        world.do_drill(target).1 != DrillResult::Success ==> world.do_drill(target).0 == world,
{
    let (after, outcome) = world.do_drill(target);
    match world.occupant(target) {
        None => {},
        Some(entity) => {
            assert(world.occupies(entity, target));
            lemma_remove_positions(world, entity);
            if outcome == DrillResult::Success {
                assert forall|other: Entity| !after.occupies(other, target) by {
                    if after.occupies(other, target) {
                        assert(world.positions[other] == world.positions[entity]);
                    }
                }
            }
        },
    }
}

/// Drilling keeps positions unique: after `drill`, no two entities stand in
/// the same cell.
pub proof fn lemma_drill_preserves_uniqueness(world: World, entity: Entity, direction: Direction)
    requires
        world.positions_unique(),
    ensures
        world.drill(entity, direction).0.positions_unique(),
{
    if world.positions.contains_key(entity) {
        let destination = world.positions[entity].step(direction);
        let (drilled, outcome) = world.do_drill(destination);
        lemma_do_drill_preserves_uniqueness(world, destination);
        match outcome {
            DrillResult::Success => {
                lemma_shift_preserves_uniqueness(drilled, entity, destination);
            },
            DrillResult::DestroysEnterer => {
                lemma_remove_preserves_uniqueness(drilled, entity);
            },
        }
    }
}

/// Carrying out a command keeps positions unique.
pub proof fn lemma_perform_preserves_uniqueness(world: World, bot: Entity, command: Command)
    requires
        world.positions_unique(),
    ensures
        world.perform(bot, command).positions_unique(),
{
    match command {
        Command::LookAt(offset) => {
            if world.positions.contains_key(bot) {
                lemma_notify_preserves_uniqueness(
                    world,
                    bot,
                    Notification::YouSee(world.appearance_at(world.positions[bot].plus(offset))),
                );
            }
        },
        Command::Move(direction) => {
            lemma_go_preserves_uniqueness(world, bot, direction);
            let (gone, outcome) = world.go(bot, direction);
            lemma_notify_preserves_uniqueness(gone, bot, Notification::Success);
            lemma_notify_preserves_uniqueness(gone, bot, Notification::TooHeavy);
        },
        Command::Drill(direction) => {
            lemma_drill_preserves_uniqueness(world, bot, direction);
            let (drilled, outcome) = world.drill(bot, direction);
            lemma_notify_preserves_uniqueness(drilled, bot, Notification::Success);
        },
        Command::Malformed => {},
        Command::End => {},
    }
}

/// A turn keeps positions unique.
pub proof fn lemma_act_preserves_uniqueness(world: World, bot: Entity)
    requires
        world.positions_unique(),
    ensures
        world.act(bot).positions_unique(),
{
    let (ticked, state) = world.tick(bot);
    lemma_notify_preserves_uniqueness(ticked, bot, Notification::YourTurn);
    let told = ticked.notify(bot, Notification::YourTurn);
    if told.inputs.contains_key(bot) {
        let (command, rest) = crate::command::parse(told.inputs[bot]);
        lemma_perform_preserves_uniqueness(told.consumed(bot, rest), bot, command);
    }
}

/// A sequence of turns keeps positions unique.
pub proof fn lemma_act_vec_preserves_uniqueness(world: World, entities: Seq<Entity>)
    requires
        world.positions_unique(),
    ensures
        world.act_vec(entities).positions_unique(),
    decreases entities.len(),
{
    if entities.len() > 0 {
        lemma_act_vec_preserves_uniqueness(world, entities.drop_last());
        lemma_act_preserves_uniqueness(world.act_vec(entities.drop_last()), entities.last());
    }
}

/// An entity that has acted at a cost of `ticks_used` turns still has
/// `ticks_used - turns` turns to sit out once `turns` of them have passed.
pub proof fn lemma_cooldown_runs_down(world: World, entity: Entity, ticks_used: u8, turns: nat)
    requires
        ticks_used >= 1,
        turns < ticks_used,
    ensures
        world.acted(entity, ticks_used).ticked(entity, turns).cooldowns.contains_key(entity),
        world.acted(entity, ticks_used).ticked(entity, turns).cooldowns[entity] == ticks_used
            - turns,
    decreases turns,
{
    if turns > 0 {
        lemma_cooldown_runs_down(world, entity, ticks_used, (turns - 1) as nat);
    }
}

/// The shape of a cooldown: an entity that has acted at a cost of
/// `ticks_used` turns is made to wait in each of the next `ticks_used - 1`
/// turns and is ready in the turn after them, and then has no cooldown left.
pub proof fn lemma_cooldown_shape(world: World, entity: Entity, ticks_used: u8)
    requires
        ticks_used >= 1,
    ensures
        forall|turns: nat|
            turns < ticks_used - 1 ==> (#[trigger] world.acted(entity, ticks_used).ticked(
                entity,
                turns,
            )).tick(entity).1 == crate::cooldown::CooldownState::Waiting,
        world.acted(entity, ticks_used).ticked(entity, (ticks_used - 1) as nat).tick(entity).1
            == crate::cooldown::CooldownState::Ready,
        !world.acted(entity, ticks_used).ticked(entity, ticks_used as nat).cooldowns.contains_key(
            entity,
        ),
{
    assert forall|turns: nat| turns < ticks_used - 1 implies (#[trigger] world.acted(
        entity,
        ticks_used,
    ).ticked(entity, turns)).tick(entity).1 == crate::cooldown::CooldownState::Waiting by {
        lemma_cooldown_runs_down(world, entity, ticks_used, turns);
    }
    lemma_cooldown_runs_down(world, entity, ticks_used, (ticks_used - 1) as nat);
    assert(world.acted(entity, ticks_used).ticked(entity, ticks_used as nat) == world.acted(
        entity,
        ticks_used,
    ).ticked(entity, (ticks_used - 1) as nat).tick(entity).0);
}

/// In an arena whose kinds are consistent, appearance and response to
/// pushes go together: an entity looks like a bot exactly if it is
/// squishable, like a block exactly if it is heavy, and like an abyss exactly
/// if it destroys whoever enters; and none looks like floor.
pub proof fn lemma_appearance_matches_pushable(world: World, entity: Entity)
    requires
        world.kinds_consistent(),
        world.appearances.contains_key(entity) || world.pushables.contains_key(entity),
    ensures
        world.appearances.contains_key(entity),
        world.pushables.contains_key(entity),
        world.appearances[entity] == Appearance::Bot <==> world.pushables[entity]
            == Pushable::Squishable,
        world.appearances[entity] == Appearance::Block <==> world.pushables[entity]
            == Pushable::Heavy,
        world.appearances[entity] == Appearance::Abyss <==> world.pushables[entity]
            == Pushable::DestroysEnterer,
        world.appearances[entity] != Appearance::Floor,
{
}

/// Making an entity whose appearance matches its response to pushes keeps
/// the arena sound.
pub proof fn lemma_spawn_preserves_soundness(
    world: World,
    position: Position,
    appearance: Appearance,
    pushable: Pushable,
)
    requires
        world.sound(),
        world.next_id < u32::MAX,
        World::kind_matches(appearance, pushable),
    ensures
        world.spawned(position, appearance, pushable).sound(),
{
}

/// Sending a notification keeps the arena sound.
pub proof fn lemma_notify_preserves_soundness(
    world: World,
    entity: Entity,
    notification: Notification,
)
    requires
        world.sound(),
    ensures
        world.notify(entity, notification).sound(),
{
}

/// Destroying an entity keeps the arena sound.
pub proof fn lemma_remove_preserves_soundness(world: World, entity: Entity)
    requires
        world.sound(),
    ensures
        world.remove(entity).sound(),
{
    lemma_notify_preserves_soundness(world, entity, Notification::YouDied);
}

/// A push keeps the arena sound.
pub proof fn lemma_push_preserves_soundness(
    world: World,
    target: Position,
    direction: Direction,
    chain: nat,
)
    requires
        world.sound(),
    ensures
        world.push(target, direction, chain).0.sound(),
    decreases 2 - chain,
{
    match world.occupant(target) {
        None => {},
        Some(entity) => {
            let destination = target.step(direction);
            if chain <= 1 {
                lemma_push_preserves_soundness(world, destination, direction, chain + 1);
                lemma_remove_preserves_soundness(
                    world.push(destination, direction, chain + 1).0,
                    entity,
                );
            }
        },
    }
}

/// A step keeps the arena sound: appearances still match the responses to
/// pushes, every actor is still a bot that is alive, and no cooldown is 0.
pub proof fn lemma_go_preserves_soundness(world: World, entity: Entity, direction: Direction)
    requires
        world.sound(),
    ensures
        world.go(entity, direction).0.sound(),
{
    if world.positions.contains_key(entity) {
        let destination = world.positions[entity].step(direction);
        lemma_push_preserves_soundness(world, destination, direction, 0);
        lemma_remove_preserves_soundness(world.push(destination, direction, 0).0, entity);
    }
}

/// Drilling keeps the arena sound.
pub proof fn lemma_drill_preserves_soundness(world: World, entity: Entity, direction: Direction)
    requires
        world.sound(),
    ensures
        world.drill(entity, direction).0.sound(),
{
    if world.positions.contains_key(entity) {
        let destination = world.positions[entity].step(direction);
        match world.occupant(destination) {
            None => {},
            Some(other) => {
                lemma_remove_preserves_soundness(world, other);
            },
        }
        lemma_remove_preserves_soundness(world.do_drill(destination).0, entity);
    }
}

/// Carrying out a command keeps the arena sound.
pub proof fn lemma_perform_preserves_soundness(world: World, bot: Entity, command: Command)
    requires
        world.sound(),
    ensures
        world.perform(bot, command).sound(),
{
    match command {
        Command::LookAt(offset) => {},
        Command::Move(direction) => {
            lemma_go_preserves_soundness(world, bot, direction);
            let (gone, outcome) = world.go(bot, direction);
            lemma_notify_preserves_soundness(gone, bot, Notification::Success);
            lemma_notify_preserves_soundness(gone, bot, Notification::TooHeavy);
        },
        Command::Drill(direction) => {
            lemma_drill_preserves_soundness(world, bot, direction);
            let (drilled, outcome) = world.drill(bot, direction);
            lemma_notify_preserves_soundness(drilled, bot, Notification::Success);
        },
        Command::Malformed => {},
        Command::End => {},
    }
}

/// A turn keeps the arena sound.
pub proof fn lemma_act_preserves_soundness(world: World, bot: Entity)
    requires
        world.sound(),
    ensures
        world.act(bot).sound(),
{
    let (begun, due) = world.begin_turn(bot);
    lemma_notify_preserves_soundness(world.tick(bot).0, bot, Notification::YourTurn);
    if due {
        let (command, rest) = crate::command::parse(begun.inputs[bot]);
        lemma_perform_preserves_soundness(begun.consumed(bot, rest), bot, command);
    }
}

/// A sequence of turns keeps the arena sound.
pub proof fn lemma_act_vec_preserves_soundness(world: World, entities: Seq<Entity>)
    requires
        world.sound(),
    ensures
        world.act_vec(entities).sound(),
    decreases entities.len(),
{
    if entities.len() > 0 {
        lemma_act_vec_preserves_soundness(world, entities.drop_last());
        lemma_act_preserves_soundness(world.act_vec(entities.drop_last()), entities.last());
    }
}

} // verus!
