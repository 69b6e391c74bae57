//! What becomes of the streams of the bots: a bot that is destroyed has its
//! streams set aside for the next round, once, and every other bot keeps
//! its own.

use vstd::prelude::*;
use crate::command::{parse, Command};
use crate::entity::Entity;
use crate::notification::Notification;
use crate::pushable::{DrillResult, PushResult};
use crate::space::{Direction, Position};
use crate::stream::Sink;
use crate::world::World;

verus! {

impl World {
    /// No sink in the arena is closed.
    pub open spec fn sinks_open(self) -> bool {
        forall|entity: Entity| #[trigger]
            self.outputs.contains_key(entity) ==> !self.outputs[entity].closed
    }
}

/// Whether `later` is what is left of the input `earlier` once some of its
/// bytes have been read.
pub open spec fn rest_of(earlier: Seq<u8>, later: Seq<u8>) -> bool {
    exists|read: int| 0 <= read <= earlier.len() && later == #[trigger] earlier.skip(read)
}

/// Whether `later` is the open sink `earlier` after more has been written to
/// it.
pub open spec fn grown_from(earlier: Sink, later: Sink) -> bool {
    &&& !later.closed
    &&& later.peer == earlier.peer
    &&& earlier.written.is_prefix_of(later.written)
}

/// Whether every actor of `after` was an actor of `before` and still has
/// both its streams: the input with nothing but a part that was read
/// missing, the sink with nothing but what was written since added.
pub open spec fn actors_kept(before: World, after: World) -> bool {
    forall|entity: Entity| #[trigger]
        after.inputs.contains_key(entity) ==> before.inputs.contains_key(entity) && rest_of(
            before.inputs[entity],
            after.inputs[entity],
        ) && after.outputs.contains_key(entity) && grown_from(
            before.outputs[entity],
            after.outputs[entity],
        )
}

/// Whether every actor of `before` is an actor of `after`, and no streams
/// have been set aside in between.
pub open spec fn nobody_left(before: World, after: World) -> bool {
    &&& after.waiting == before.waiting
    &&& forall|entity: Entity| #[trigger]
        before.inputs.contains_key(entity) ==> after.inputs.contains_key(entity)
}

/// Whether every actor of `before` but `victim` is an actor of `after`, and
/// the streams of `victim` have been set aside in between, once, as the last
/// of those that wait.
pub open spec fn one_left(before: World, after: World, victim: Entity) -> bool {
    &&& before.inputs.contains_key(victim)
    &&& !after.inputs.contains_key(victim)
    &&& forall|entity: Entity| #[trigger]
        before.inputs.contains_key(entity) && entity != victim ==> after.inputs.contains_key(
            entity,
        )
    &&& after.waiting.len() == before.waiting.len() + 1
    &&& after.waiting.drop_last() == before.waiting
    &&& rest_of(before.inputs[victim], after.waiting.last().0)
    &&& grown_from(before.outputs[victim], after.waiting.last().1)
}

/// Whether the streams of `before` are all accounted for in `after`, none
/// lost and none twice: every bot still holds its own, but for at most one,
/// whose streams have been set aside.
pub open spec fn recycled(before: World, after: World) -> bool {
    &&& actors_kept(before, after)
    &&& nobody_left(before, after) || exists|victim: Entity| one_left(before, after, victim)
}

/// Destroying an entity in an arena whose sinks are open accounts for all
/// streams: those of an actor are set aside, and nothing else changes hands.
pub proof fn lemma_remove_recycles(world: World, entity: Entity)
    requires
        world.streams_bound(),
        world.sinks_open(),
    ensures
        recycled(world, world.remove(entity)),
        world.remove(entity).sinks_open(),
        world.remove(entity).streams_bound(),
{
    let after = world.remove(entity);
    assert forall|other: Entity| #[trigger] after.inputs.contains_key(other) implies rest_of(
        world.inputs[other],
        after.inputs[other],
    ) by {
        assert(after.inputs[other] == world.inputs[other].skip(0));
    }
    if world.inputs.contains_key(entity) {
        assert(world.outputs.contains_key(entity));
        let sink = world.outputs[entity].wrote(Notification::YouDied.bytes());
        assert(after.waiting == world.waiting.push((world.inputs[entity], sink)));
        assert(after.waiting.drop_last() =~= world.waiting);
        assert(world.inputs[entity] == world.inputs[entity].skip(0));
        assert(one_left(world, after, entity));
    } else {
        assert(nobody_left(world, after));
    }
}

/// Steps that change no streams account for all of them.
pub proof fn lemma_same_streams_recycle(before: World, middle: World, after: World)
    requires
        recycled(before, middle),
        after.inputs == middle.inputs,
        after.outputs == middle.outputs,
        after.waiting == middle.waiting,
    ensures
        recycled(before, after),
{
    if nobody_left(before, middle) {
        assert(nobody_left(before, after));
    } else {
        let victim = choose|victim: Entity| one_left(before, middle, victim);
        assert(one_left(before, after, victim));
    }
}

/// An arena accounts for its own streams.
pub proof fn lemma_recycled_reflexive(world: World)
    requires
        world.streams_bound(),
        world.sinks_open(),
    ensures
        recycled(world, world),
{
    assert forall|other: Entity| #[trigger] world.inputs.contains_key(other) implies rest_of(
        world.inputs[other],
        world.inputs[other],
    ) by {
        assert(world.inputs[other] == world.inputs[other].skip(0));
    }
    assert(nobody_left(world, world));
}

/// A push in an arena whose sinks are open accounts for all streams: it
/// destroys at most one entity, and it destroys none where it does not
/// succeed.
pub proof fn lemma_push_recycles(world: World, target: Position, direction: Direction, chain: nat)
    requires
        world.streams_bound(),
        world.sinks_open(),
    ensures
        recycled(world, world.push(target, direction, chain).0),
        world.push(target, direction, chain).0.sinks_open(),
        world.push(target, direction, chain).0.streams_bound(),
        world.push(target, direction, chain).1 != PushResult::Success ==> world.push(
            target,
            direction,
            chain,
        ).0 == world,
    decreases 2 - chain,
{
    lemma_recycled_reflexive(world);
    let (after, outcome) = world.push(target, direction, chain);
    match world.occupant(target) {
        None => {},
        Some(entity) => {
            let destination = target.step(direction);
            if chain <= 1 {
                let (beyond, inner) = world.push(destination, direction, chain + 1);
                lemma_push_recycles(world, destination, direction, chain + 1);
                if inner == PushResult::Success {
                    lemma_same_streams_recycle(world, beyond, beyond.shifted(entity, destination));
                } else {
                    lemma_remove_recycles(world, entity);
                }
            }
        },
    }
}

/// A step in an arena whose sinks are open accounts for all streams: after
/// `go`, every bot still holds its own streams, but for at most one that the
/// step has destroyed, whose streams have been set aside.
pub proof fn lemma_go_recycles(world: World, entity: Entity, direction: Direction)
    requires
        world.streams_bound(),
        world.sinks_open(),
    ensures
        recycled(world, world.go(entity, direction).0),
        world.go(entity, direction).0.sinks_open(),
        world.go(entity, direction).0.streams_bound(),
{
    lemma_recycled_reflexive(world);
    if world.positions.contains_key(entity) {
        let destination = world.positions[entity].step(direction);
        let (pushed, outcome) = world.push(destination, direction, 0);
        lemma_push_recycles(world, destination, direction, 0);
        match outcome {
            PushResult::Success => {
                lemma_same_streams_recycle(
                    world,
                    pushed,
                    pushed.shifted(entity, destination).acted(entity, 3),
                );
            },
            PushResult::DestroysEnterer => {
                lemma_remove_recycles(world, entity);
            },
            PushResult::TooHeavy => {
                lemma_same_streams_recycle(world, pushed, pushed.acted(entity, 3));
            },
        }
    }
}

/// Drilling in an arena whose sinks are open accounts for all streams: after
/// `drill`, every bot still holds its own streams, but for at most one that
/// the drilling has destroyed, whose streams have been set aside.
pub proof fn lemma_drill_recycles(world: World, entity: Entity, direction: Direction)
    requires
        world.streams_bound(),
        world.sinks_open(),
    ensures
        recycled(world, world.drill(entity, direction).0),
        world.drill(entity, direction).0.sinks_open(),
        world.drill(entity, direction).0.streams_bound(),
{
    lemma_recycled_reflexive(world);
    if world.positions.contains_key(entity) {
        let destination = world.positions[entity].step(direction);
        let (drilled, outcome) = world.do_drill(destination);
        match world.occupant(destination) {
            None => {},
            Some(other) => {
                lemma_remove_recycles(world, other);
            },
        }
        match outcome {
            DrillResult::Success => {
                lemma_same_streams_recycle(
                    world,
                    drilled,
                    drilled.shifted(entity, destination).acted(entity, 5),
                );
            },
            DrillResult::DestroysEnterer => {
                lemma_remove_recycles(world, entity);
                lemma_same_streams_recycle(
                    world,
                    world.remove(entity),
                    world.remove(entity).acted(entity, 5),
                );
            },
        }
    }
}

/// Whether `after` holds the actors of `before`, each with both its
/// streams: the input with nothing but a part that was read missing, the
/// sink with nothing but what was written since added. Nothing has been set
/// aside in between.
pub open spec fn streams_carried(before: World, after: World) -> bool {
    &&& after.waiting == before.waiting
    &&& forall|entity: Entity|
        #![trigger before.inputs.contains_key(entity)]
        #![trigger after.inputs.contains_key(entity)]
        before.inputs.contains_key(entity) <==> after.inputs.contains_key(entity)
    &&& forall|entity: Entity| #[trigger]
        after.inputs.contains_key(entity) ==> rest_of(
            before.inputs[entity],
            after.inputs[entity],
        ) && after.outputs.contains_key(entity) && grown_from(
            before.outputs[entity],
            after.outputs[entity],
        )
}

/// What is left of what is left of an input is left of the input.
pub proof fn lemma_rest_of_transitive(a: Seq<u8>, b: Seq<u8>, c: Seq<u8>)
    requires
        rest_of(a, b),
        rest_of(b, c),
    ensures
        rest_of(a, c),
{
    let first = choose|read: int| 0 <= read <= a.len() && b == #[trigger] a.skip(read);
    let second = choose|read: int| 0 <= read <= b.len() && c == #[trigger] b.skip(read);
    assert(c =~= a.skip(first + second));
}

/// Where the actors have been carried from one arena to a second, and the
/// second accounts for its streams in a third, the first accounts for its
/// streams in the third.
pub proof fn lemma_carried_then_recycled(before: World, middle: World, after: World)
    requires
        streams_carried(before, middle),
        recycled(middle, after),
    ensures
        recycled(before, after),
{
    assert forall|entity: Entity| #[trigger] after.inputs.contains_key(entity) implies rest_of(
        before.inputs[entity],
        after.inputs[entity],
    ) by {
        assert(middle.inputs.contains_key(entity));
        lemma_rest_of_transitive(
            before.inputs[entity],
            middle.inputs[entity],
            after.inputs[entity],
        );
    }
    if nobody_left(middle, after) {
        assert forall|entity: Entity| #[trigger]
            before.inputs.contains_key(entity) implies after.inputs.contains_key(entity) by {
            assert(middle.inputs.contains_key(entity));
        }
        assert(nobody_left(before, after));
    } else {
        let victim = choose|victim: Entity| one_left(middle, after, victim);
        assert(middle.inputs.contains_key(victim));
        lemma_rest_of_transitive(
            before.inputs[victim],
            middle.inputs[victim],
            after.waiting.last().0,
        );
        assert forall|entity: Entity| #[trigger]
            before.inputs.contains_key(entity) && entity != victim implies after.inputs.contains_key(
            entity,
        ) by {
            assert(middle.inputs.contains_key(entity));
        }
        assert(one_left(before, after, victim));
    }
}

/// Where an arena accounts for its streams in a second, and the actors have
/// been carried from the second to a third, the first accounts for its
/// streams in the third.
pub proof fn lemma_recycled_then_carried(before: World, middle: World, after: World)
    requires
        recycled(before, middle),
        streams_carried(middle, after),
    ensures
        recycled(before, after),
{
    assert forall|entity: Entity| #[trigger] after.inputs.contains_key(entity) implies rest_of(
        before.inputs[entity],
        after.inputs[entity],
    ) by {
        assert(middle.inputs.contains_key(entity));
        lemma_rest_of_transitive(
            before.inputs[entity],
            middle.inputs[entity],
            after.inputs[entity],
        );
    }
    if nobody_left(before, middle) {
        assert forall|entity: Entity| #[trigger]
            before.inputs.contains_key(entity) implies after.inputs.contains_key(entity) by {
            assert(middle.inputs.contains_key(entity));
        }
        assert(nobody_left(before, after));
    } else {
        let victim = choose|victim: Entity| one_left(before, middle, victim);
        assert forall|entity: Entity| #[trigger]
            before.inputs.contains_key(entity) && entity != victim implies after.inputs.contains_key(
            entity,
        ) by {
            assert(middle.inputs.contains_key(entity));
        }
        assert(one_left(before, after, victim));
    }
}

/// Sending a notification in an arena whose sinks are open carries every
/// actor along.
pub proof fn lemma_notify_carries(world: World, entity: Entity, notification: Notification)
    requires
        world.streams_bound(),
        world.sinks_open(),
    ensures
        streams_carried(world, world.notify(entity, notification)),
        world.notify(entity, notification).sinks_open(),
        world.notify(entity, notification).streams_bound(),
{
    let after = world.notify(entity, notification);
    assert forall|other: Entity| #[trigger] after.inputs.contains_key(other) implies rest_of(
        world.inputs[other],
        after.inputs[other],
    ) by {
        assert(after.inputs[other] == world.inputs[other].skip(0));
    }
}

/// A turn in an arena whose sinks are open accounts for all streams, unless
/// the bot is disconnected for what it has sent: after `act`, every bot
/// still holds its own streams, but for at most one that was destroyed in
/// the turn, whose streams have been set aside.
pub proof fn lemma_act_recycles(world: World, bot: Entity)
    requires
        world.streams_bound(),
        world.sinks_open(),
        world.begin_turn(bot).1 ==> parse(world.begin_turn(bot).0.inputs[bot]).0
            != Command::Malformed && parse(world.begin_turn(bot).0.inputs[bot]).0 != Command::End,
    ensures
        recycled(world, world.act(bot)),
        world.act(bot).sinks_open(),
        world.act(bot).streams_bound(),
{
    let (ticked, state) = world.tick(bot);
    let (begun, due) = world.begin_turn(bot);
    lemma_notify_carries(ticked, bot, Notification::YourTurn);
    assert(streams_carried(world, begun)) by {
        assert forall|other: Entity| #[trigger] begun.inputs.contains_key(other) implies rest_of(
            world.inputs[other],
            begun.inputs[other],
        ) by {
            assert(begun.inputs[other] == world.inputs[other].skip(0));
        }
    }
    lemma_recycled_reflexive(begun);
    if due {
        let (command, rest) = parse(begun.inputs[bot]);
        let read = begun.consumed(bot, rest);
        assert(streams_carried(begun, read)) by {
            assert forall|other: Entity| #[trigger] read.inputs.contains_key(other) implies rest_of(
                begun.inputs[other],
                read.inputs[other],
            ) by {
                if other == bot {
                    assert(rest == begun.inputs[bot].skip(begun.inputs[bot].len() - rest.len()));
                } else {
                    assert(read.inputs[other] == begun.inputs[other].skip(0));
                }
            }
        }
        let after = read.perform(bot, command);
        assert(recycled(read, after) && after.sinks_open() && after.streams_bound()) by {
            lemma_recycled_reflexive(read);
            match command {
                Command::LookAt(offset) => {
                    if read.positions.contains_key(bot) {
                        let seen = Notification::YouSee(
                            read.appearance_at(read.positions[bot].plus(offset)),
                        );
                        lemma_notify_carries(read, bot, seen);
                        lemma_recycled_then_carried(read, read, after);
                    }
                },
                Command::Move(direction) => {
                    let (gone, outcome) = read.go(bot, direction);
                    lemma_go_recycles(read, bot, direction);
                    lemma_notify_carries(gone, bot, Notification::Success);
                    lemma_notify_carries(gone, bot, Notification::TooHeavy);
                    lemma_recycled_then_carried(read, gone, after);
                },
                Command::Drill(direction) => {
                    let (drilled, outcome) = read.drill(bot, direction);
                    lemma_drill_recycles(read, bot, direction);
                    lemma_notify_carries(drilled, bot, Notification::Success);
                    lemma_recycled_then_carried(read, drilled, after);
                },
                _ => {},
            }
        }
        lemma_carried_then_recycled(begun, read, after);
        lemma_carried_then_recycled(world, begun, after);
    } else {
        lemma_recycled_then_carried(world, world, begun);
    }
}

impl World {
    /// Whether the bot's turn disconnects it for nothing that it has sent:
    /// where its command is due, a whole command has arrived that is well
    /// formed.
    pub open spec fn turn_keeps_all(self, bot: Entity) -> bool {
        self.begin_turn(bot).1 ==> parse(self.begin_turn(bot).0.inputs[bot]).0
            != Command::Malformed && parse(self.begin_turn(bot).0.inputs[bot]).0 != Command::End
    }

    /// Whether none of the turns of the entities, taken one after the other,
    /// disconnects a bot for what it has sent.
    pub open spec fn turns_keep_all(self, entities: Seq<Entity>) -> bool
        decreases entities.len(),
    {
        entities.len() == 0 || (self.turns_keep_all(entities.drop_last()) && self.act_vec(
            entities.drop_last(),
        ).turn_keeps_all(entities.last()))
    }

    /// Whether none of the turns of the first `count` passes disconnects a
    /// bot for what it has sent.
    pub open spec fn passes_keep_all(self, count: nat) -> bool
        decreases count,
    {
        count == 0 || (self.passes_keep_all((count - 1) as nat) && self.passes(
            (count - 1) as nat,
        ).turns_keep_all(self.passes((count - 1) as nat).actors()))
    }
}

/// Whether the streams of `before` are all accounted for in `after`, none
/// lost and none twice, with `gone` the bots that were destroyed in between,
/// in the order in which they were: every actor of `after` is an actor of
/// `before` that still holds its own streams, and every other actor of
/// `before` is one of `gone`, exactly once, and its streams have been set
/// aside at its place behind those that waited before.
pub open spec fn accounted_by(before: World, after: World, gone: Seq<Entity>) -> bool {
    &&& actors_kept(before, after)
    &&& gone.no_duplicates()
    &&& after.waiting.len() == before.waiting.len() + gone.len()
    &&& forall|i: int| 0 <= i < before.waiting.len() ==> after.waiting[i] == before.waiting[i]
    &&& forall|i: int|
        0 <= i < gone.len() ==> {
            &&& before.inputs.contains_key(#[trigger] gone[i])
            &&& !after.inputs.contains_key(gone[i])
            &&& rest_of(before.inputs[gone[i]], after.waiting[before.waiting.len() + i].0)
            &&& grown_from(before.outputs[gone[i]], after.waiting[before.waiting.len() + i].1)
        }
    &&& forall|entity: Entity| #[trigger]
        before.inputs.contains_key(entity) && !after.inputs.contains_key(entity) ==> gone.contains(
            entity,
        )
}

/// Whether the streams of `before` are all accounted for in `after`: for
/// every bot that held streams in `before`, exactly one pair of streams is
/// either still held by the bot or has been set aside.
pub open spec fn accounted(before: World, after: World) -> bool {
    exists|gone: Seq<Entity>| accounted_by(before, after, gone)
}

/// An open sink that has grown from a sink that has grown from a third has
/// grown from the third.
pub proof fn lemma_grown_from_transitive(a: Sink, b: Sink, c: Sink)
    requires
        grown_from(a, b),
        grown_from(b, c),
    ensures
        grown_from(a, c),
{
}

/// A step that has destroyed at most one bot accounts for all streams.
pub proof fn lemma_recycled_is_accounted(before: World, after: World)
    requires
        recycled(before, after),
    ensures
        accounted(before, after),
{
    if nobody_left(before, after) {
        assert(accounted_by(before, after, Seq::<Entity>::empty()));
    } else {
        let victim = choose|victim: Entity| one_left(before, after, victim);
        let gone = seq![victim];
        assert forall|i: int| 0 <= i < before.waiting.len() implies after.waiting[i]
            == before.waiting[i] by {
            assert(after.waiting.drop_last()[i] == before.waiting[i]);
        }
        assert forall|entity: Entity| #[trigger]
            before.inputs.contains_key(entity) && !after.inputs.contains_key(
                entity,
            ) implies gone.contains(entity) by {
            assert(gone[0] == victim);
        }
        assert(accounted_by(before, after, gone));
    }
}

/// Where the streams of a first arena are accounted for in a second, and
/// those of the second in a third, those of the first are accounted for in
/// the third.
pub proof fn lemma_accounted_transitive(a: World, b: World, c: World)
    requires
        accounted(a, b),
        accounted(b, c),
    ensures
        accounted(a, c),
{
    let first = choose|gone: Seq<Entity>| accounted_by(a, b, gone);
    let second = choose|gone: Seq<Entity>| accounted_by(b, c, gone);
    let gone = first + second;
    assert forall|entity: Entity| #[trigger] c.inputs.contains_key(entity) implies a.inputs.contains_key(
        entity,
    ) && rest_of(a.inputs[entity], c.inputs[entity]) && c.outputs.contains_key(entity)
        && grown_from(a.outputs[entity], c.outputs[entity]) by {
        assert(b.inputs.contains_key(entity));
        lemma_rest_of_transitive(a.inputs[entity], b.inputs[entity], c.inputs[entity]);
        lemma_grown_from_transitive(a.outputs[entity], b.outputs[entity], c.outputs[entity]);
    }
    assert forall|i: int, j: int| 0 <= i < first.len() && 0 <= j < second.len() implies first[i]
        != second[j] by {
        assert(b.inputs.contains_key(second[j]));
        assert(!b.inputs.contains_key(first[i]));
    }
    vstd::seq_lib::lemma_no_dup_in_concat(first, second);
    assert forall|i: int| 0 <= i < gone.len() implies {
        &&& a.inputs.contains_key(#[trigger] gone[i])
        &&& !c.inputs.contains_key(gone[i])
        &&& rest_of(a.inputs[gone[i]], c.waiting[a.waiting.len() + i].0)
        &&& grown_from(a.outputs[gone[i]], c.waiting[a.waiting.len() + i].1)
    } by {
        if i < first.len() {
            assert(gone[i] == first[i]);
            assert(c.waiting[a.waiting.len() + i] == b.waiting[a.waiting.len() + i]);
            if c.inputs.contains_key(gone[i]) {
                assert(b.inputs.contains_key(gone[i]));
            }
        } else {
            let j = i - first.len();
            let entity = second[j];
            assert(gone[i] == entity);
            assert(b.inputs.contains_key(entity));
            assert(a.inputs.contains_key(entity));
            lemma_rest_of_transitive(
                a.inputs[entity],
                b.inputs[entity],
                c.waiting[b.waiting.len() + j].0,
            );
            lemma_grown_from_transitive(
                a.outputs[entity],
                b.outputs[entity],
                c.waiting[b.waiting.len() + j].1,
            );
        }
    }
    assert forall|entity: Entity| #[trigger]
        a.inputs.contains_key(entity) && !c.inputs.contains_key(entity) implies gone.contains(
        entity,
    ) by {
        if b.inputs.contains_key(entity) {
            assert(second.contains(entity));
            let j = choose|j: int| 0 <= j < second.len() && second[j] == entity;
            assert(gone[first.len() + j] == entity);
        } else {
            assert(first.contains(entity));
            let i = choose|i: int| 0 <= i < first.len() && first[i] == entity;
            assert(gone[i] == entity);
        }
    }
    assert(accounted_by(a, c, gone));
}

/// Turns that disconnect no bot for what it has sent, in an arena whose
/// sinks are open, account for all streams.
pub proof fn lemma_turns_account_for_streams(world: World, entities: Seq<Entity>)
    requires
        world.streams_bound(),
        world.sinks_open(),
        world.turns_keep_all(entities),
    ensures
        accounted(world, world.act_vec(entities)),
        world.act_vec(entities).sinks_open(),
        world.act_vec(entities).streams_bound(),
    decreases entities.len(),
{
    if entities.len() == 0 {
        lemma_recycled_reflexive(world);
        lemma_recycled_is_accounted(world, world);
    } else {
        let sooner = world.act_vec(entities.drop_last());
        lemma_turns_account_for_streams(world, entities.drop_last());
        lemma_act_recycles(sooner, entities.last());
        lemma_recycled_is_accounted(sooner, sooner.act(entities.last()));
        lemma_accounted_transitive(world, sooner, world.act_vec(entities));
    }
}

/// Recycling is complete: where a round is played in an arena whose sinks
/// are open and no turn disconnects a bot for what it has sent, then after
/// any number of passes, for every bot that held streams when the round
/// began, exactly one pair of streams is either still held by the bot or
/// has been set aside for the next round.
pub proof fn lemma_passes_account_for_streams(world: World, count: nat)
    requires
        world.streams_bound(),
        world.sinks_open(),
        world.passes_keep_all(count),
    ensures
        accounted(world, world.passes(count)),
        world.passes(count).sinks_open(),
        world.passes(count).streams_bound(),
    decreases count,
{
    if count == 0 {
        lemma_recycled_reflexive(world);
        lemma_recycled_is_accounted(world, world);
    } else {
        let sooner = world.passes((count - 1) as nat);
        lemma_passes_account_for_streams(world, (count - 1) as nat);
        lemma_turns_account_for_streams(sooner, sooner.actors());
        lemma_accounted_transitive(world, sooner, world.passes(count));
    }
}

} // verus!
