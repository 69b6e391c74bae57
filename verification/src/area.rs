//! The arena: every component store, the streams set aside for the next
//! round, and the source of entities.

use vstd::prelude::*;
use crate::appearance::Appearance;
use crate::entity::{Components, Entities, Entity};
use crate::invariants::{lemma_spawn_preserves_soundness, lemma_spawn_preserves_uniqueness};
use crate::notification::Notification;
use crate::pushable::Pushable;
use crate::space::Position;
use crate::stream::{Input, Output, Sink};
use crate::world::World;

verus! {

/// What contracts see of the inputs of the bots.
pub open spec fn input_views(inputs: Map<Entity, Input>) -> Map<Entity, Seq<u8>> {
    inputs.map_values(|input: Input| input@)
}

/// What contracts see of the outputs of the bots.
pub open spec fn output_views(outputs: Map<Entity, Output>) -> Map<Entity, Sink> {
    outputs.map_values(|output: Output| output@)
}

/// What contracts see of a list of stream pairs.
pub open spec fn pair_views(pairs: Seq<(Input, Output)>) -> Seq<(Seq<u8>, Sink)> {
    pairs.map_values(|pair: (Input, Output)| (pair.0@, pair.1@))
}

/// The stage on which one round is played.
pub struct Area {
    pub positions: Components<Position>,
    pub appearances: Components<Appearance>,
    pub pushables: Components<Pushable>,
    pub inputs: Components<Input>,
    pub outputs: Components<Output>,
    pub cooldowns: Components<u8>,
    pub participants_in_waiting: Vec<(Input, Output)>,
    pub entities: Entities,
}

impl View for Area {
    type V = World;

    open spec fn view(&self) -> World {
        World {
            positions: self.positions@,
            appearances: self.appearances@,
            pushables: self.pushables@,
            inputs: input_views(self.inputs@),
            outputs: output_views(self.outputs@),
            cooldowns: self.cooldowns@,
            waiting: pair_views(self.participants_in_waiting@),
            next_id: self.entities.next_id,
        }
    }
}

/// Makes a bot in the cell: an entity that looks like a bot and is squished
/// when it cannot give way.
pub fn make_bot(area: &mut Area, position: Position) -> (entity: Entity)
    requires
        old(area)@.next_id < u32::MAX,
    ensures
        entity == Entity(old(area)@.next_id),
        final(area)@ == old(area)@.spawned(position, Appearance::Bot, Pushable::Squishable),
        old(area)@.positions_unique() && !old(area)@.occupied(position)
            ==> final(area)@.positions_unique(),
        old(area)@.sound() ==> final(area)@.sound(),
{
    proof {
        if area@.positions_unique() && !area@.occupied(position) {
            lemma_spawn_preserves_uniqueness(
                area@,
                position,
                Appearance::Bot,
                Pushable::Squishable,
            );
        }
        if area@.sound() {
            lemma_spawn_preserves_soundness(
                area@,
                position,
                Appearance::Bot,
                Pushable::Squishable,
            );
        }
    }
    let entity = area.entities.make();
    area.positions.attach(entity, position);
    area.appearances.attach(entity, Appearance::Bot);
    area.pushables.attach(entity, Pushable::Squishable);
    entity
}

/// Makes a block in the cell: an entity that looks like a block and stays
/// when it cannot give way.
pub fn make_block(area: &mut Area, position: Position) -> (entity: Entity)
    requires
        old(area)@.next_id < u32::MAX,
    ensures
        entity == Entity(old(area)@.next_id),
        final(area)@ == old(area)@.spawned(position, Appearance::Block, Pushable::Heavy),
        old(area)@.positions_unique() && !old(area)@.occupied(position)
            ==> final(area)@.positions_unique(),
        old(area)@.sound() ==> final(area)@.sound(),
{
    proof {
        if area@.positions_unique() && !area@.occupied(position) {
            lemma_spawn_preserves_uniqueness(
                area@,
                position,
                Appearance::Block,
                Pushable::Heavy,
            );
        }
        if area@.sound() {
            lemma_spawn_preserves_soundness(
                area@,
                position,
                Appearance::Block,
                Pushable::Heavy,
            );
        }
    }
    let entity = area.entities.make();
    area.positions.attach(entity, position);
    area.appearances.attach(entity, Appearance::Block);
    area.pushables.attach(entity, Pushable::Heavy);
    entity
}

/// Makes an abyss in the cell: an entity that looks like an abyss and
/// destroys whatever enters.
pub fn make_abyss(area: &mut Area, position: Position) -> (entity: Entity)
    requires
        old(area)@.next_id < u32::MAX,
    ensures
        entity == Entity(old(area)@.next_id),
        final(area)@ == old(area)@.spawned(
            position,
            Appearance::Abyss,
            Pushable::DestroysEnterer,
        ),
        old(area)@.positions_unique() && !old(area)@.occupied(position)
            ==> final(area)@.positions_unique(),
        old(area)@.sound() ==> final(area)@.sound(),
{
    proof {
        if area@.positions_unique() && !area@.occupied(position) {
            lemma_spawn_preserves_uniqueness(
                area@,
                position,
                Appearance::Abyss,
                Pushable::DestroysEnterer,
            );
        }
        if area@.sound() {
            lemma_spawn_preserves_soundness(
                area@,
                position,
                Appearance::Abyss,
                Pushable::DestroysEnterer,
            );
        }
    }
    let entity = area.entities.make();
    area.positions.attach(entity, position);
    area.appearances.attach(entity, Appearance::Abyss);
    area.pushables.attach(entity, Pushable::DestroysEnterer);
    entity
}

impl Area {
    /// An arena in which nothing has been made.
    pub fn new() -> (r: Area)
        ensures
            r@ == World::empty(),
    {
        let r = Area {
            positions: Components::new(),
            appearances: Components::new(),
            pushables: Components::new(),
            inputs: Components::new(),
            outputs: Components::new(),
            cooldowns: Components::new(),
            participants_in_waiting: Vec::new(),
            entities: Entities::new(),
        };
        assert(r@.inputs =~= Map::empty());
        assert(r@.outputs =~= Map::empty());
        assert(r@.waiting =~= Seq::empty());
        r
    }

    /// Sends the notification to the bot. A bot without a sink gets nothing;
    /// one whose sink refuses the write is disconnected.
    pub fn notify(&mut self, bot: Entity, notification: Notification)
        ensures
            final(self)@ == old(self)@.notify(bot, notification),
    {
        let refused = match self.outputs.of_mut_ref(bot) {
            None => {
                return ;
            },
            Some(output) => crate::notification::notify(output, notification).is_err(),
        };
        if refused {
            assert(self@.outputs =~= old(self)@.outputs);
            self.disconnect(bot);
        } else {
            assert(self@.outputs =~= old(self)@.outputs.insert(
                bot,
                old(self)@.outputs[bot].wrote(notification.bytes()),
            ));
        }
    }

    /// Destroys the entity: tells it that it died, sets its streams aside
    /// for the next round, and drops every component of it.
    pub fn remove(&mut self, entity: Entity)
        ensures
            final(self)@ == old(self)@.remove(entity),
    {
        self.notify(entity, Notification::YouDied);
        let ghost told = self@;
        match (self.inputs.detach(entity), self.outputs.detach(entity)) {
            (Some(input), Some(output)) => {
                self.participants_in_waiting.push((input, output));
                assert(self@.waiting =~= told.waiting.push((told.inputs[entity], told.outputs[entity])));
            },
            _ => (),
        }
        self.disconnect(entity);
        assert(self@.inputs =~= old(self)@.remove(entity).inputs);
        assert(self@.outputs =~= old(self)@.remove(entity).outputs);
    }

    /// Drops every component of the entity, its streams included.
    pub fn disconnect(&mut self, entity: Entity)
        ensures
            final(self)@ == old(self)@.disconnect(entity),
    {
        self.positions.detach(entity);
        self.appearances.detach(entity);
        self.pushables.detach(entity);
        self.inputs.detach(entity);
        self.outputs.detach(entity);
        self.cooldowns.detach(entity);
        assert(self@.inputs =~= old(self)@.inputs.remove(entity));
        assert(self@.outputs =~= old(self)@.outputs.remove(entity));
    }

    /// The entity that stands in the cell, if there is one.
    pub fn occupant(&self, focus: Position) -> (r: Option<Entity>)
        requires
            self@.positions_unique(),
        ensures
            r == self@.occupant(focus),
    {
        let r = self.positions.at(focus);
        proof {
            match r {
                Some(entity) => {
                    assert(self@.occupies(entity, focus));
                },
                None => {},
            }
        }
        r
    }

    /// Whether no two entities stand in the same cell.
    pub fn positions_unique(&self) -> (r: bool)
        ensures
            r == self@.positions_unique(),
    {
        let entities = self.positions.entities();
        let mut i: usize = 0;
        while i < entities.len()
            invariant
                i <= entities@.len(),
                entities@.no_duplicates(),
                forall|entity: Entity|
                    entities@.contains(entity) <==> self.positions@.contains_key(entity),
                forall|a: int, b: int|
                    0 <= a < i && 0 <= b < a ==> self.positions@[entities@[a]]
                        != self.positions@[entities@[b]],
            decreases entities@.len() - i,
        {
            assert(entities@.contains(entities@[i as int]));
            let here = self.positions.of(entities[i]);
            let mut j: usize = 0;
            while j < i
                invariant
                    j <= i < entities@.len(),
                    entities@.no_duplicates(),
                    here == Some(self.positions@[entities@[i as int]]),
                    forall|entity: Entity|
                        entities@.contains(entity) <==> self.positions@.contains_key(entity),
                    forall|b: int|
                        0 <= b < j ==> self.positions@[entities@[i as int]]
                            != self.positions@[entities@[b]],
                decreases i - j,
            {
                assert(entities@.contains(entities@[j as int]));
                if self.positions.of(entities[j]) == here {
                    proof {
                        let a = entities@[i as int];
                        let b = entities@[j as int];
                        assert(entities@.contains(a));
                        assert(entities@.contains(b));
                        assert(self@.positions.contains_key(a));
                        assert(self@.positions.contains_key(b));
                        assert(a != b);
                        assert(self@.positions[a] == self@.positions[b]);
                    }
                    return false;
                }
                j = j + 1;
            }
            i = i + 1;
        }
        assert forall|a: Entity, b: Entity|
            self@.positions.contains_key(a) && self@.positions.contains_key(b)
                && self@.positions[a] == self@.positions[b] implies a == b by {
            assert(entities@.contains(a));
            assert(entities@.contains(b));
            let x = choose|x: int| 0 <= x < entities@.len() && entities@[x] == a;
            let y = choose|y: int| 0 <= y < entities@.len() && entities@[y] == b;
            if x < y {
                assert(self.positions@[entities@[y]] != self.positions@[entities@[x]]);
            } else if y < x {
                assert(self.positions@[entities@[x]] != self.positions@[entities@[y]]);
            }
        }
        true
    }

    /// What a bot sees in the cell.
    pub fn appearance_at(&self, focus: Position) -> (r: Appearance)
        requires
            self@.positions_unique(),
        ensures
            r == self@.appearance_at(focus),
    {
        match self.occupant(focus) {
            None => Appearance::Floor,
            Some(entity) => match self.appearances.of(entity) {
                Some(appearance) => appearance,
                None => Appearance::Floor,
            },
        }
    }
}

} // verus!
