//! One round: an arena is generated for the participants, the round is
//! played, and the streams of all who are left are handed back.

use rand::Rng;
use vstd::prelude::*;
use crate::appearance::Appearance;
use crate::area::{make_abyss, make_block, make_bot, pair_views, Area};
use crate::entity::{Components, Entity};
use crate::pushable::Pushable;
use crate::space::{
    lemma_cells_contained, lemma_cells_distinct, lemma_contained_is_cell, lemma_unit_times,
    Direction, Offset, Position, Rectangle,
};
use crate::stream::{Input, Output, Sink};
use crate::vector::Vector2;
use crate::world::World;

verus! {

/// The random number generator of the thread, as `rand` hands it out.
#[verifier::external_type_specification]
#[verifier::external_body]
pub struct ExThreadRng(rand::ThreadRng);

/// `rand::thread_rng`: the random number generator of the thread. Nothing
/// is claimed of it. The call panics where the system has no entropy to
/// give.
#[verifier::external_body]
fn thread_generator() -> rand::ThreadRng {
    rand::thread_rng()
}

/// `Rng::gen_range`: a number drawn at random from `low` up to, but not
/// including, `high`. The call panics unless `low` is below `high`.
#[verifier::external_body]
fn random_between(rng: &mut rand::ThreadRng, low: i32, high: i32) -> (r: i32)
    requires
        low < high,
    ensures
        low <= r < high,
{
    rng.gen_range(low, high)
}

/// `Rng::shuffle`: puts the positions in a random order. The list holds the
/// same positions afterwards, each as often as before.
#[verifier::external_body]
fn shuffle(rng: &mut rand::ThreadRng, positions: &mut Vec<Position>)
    ensures
        final(positions)@.to_multiset() == old(positions)@.to_multiset(),
{
    rng.shuffle(positions)
}

/// `Rng::choose`: one of the positions, drawn at random, or nothing where
/// there is none to draw from.
#[verifier::external_body]
fn choose_among(rng: &mut rand::ThreadRng, positions: &Vec<Position>) -> (r: Option<Position>)
    ensures
        positions@.len() == 0 ==> r is None,
        positions@.len() > 0 ==> r is Some && positions@.contains(r->Some_0),
{
    rng.choose(positions).map(Clone::clone)
}

impl World {
    /// The streams of those of the entities that hold both an input and an
    /// output, in the order of the entities.
    pub open spec fn pairs_of(self, entities: Seq<Entity>) -> Seq<(Seq<u8>, Sink)>
        decreases entities.len(),
    {
        if entities.len() == 0 {
            Seq::empty()
        } else {
            let rest = self.pairs_of(entities.drop_last());
            let last = entities.last();
            if self.inputs.contains_key(last) && self.outputs.contains_key(last) {
                rest.push((self.inputs[last], self.outputs[last]))
            } else {
                rest
            }
        }
    }

    /// The streams that the actors of the arena hold, in the order of the
    /// actors.
    pub open spec fn bound_pairs(self) -> Seq<(Seq<u8>, Sink)> {
        self.pairs_of(self.actors())
    }

    /// The streams that are left when the round is over: those that the
    /// actors hold, then those that were set aside.
    pub open spec fn io_pairs(self) -> Seq<(Seq<u8>, Sink)> {
        self.bound_pairs() + self.waiting
    }

    /// The arena once the streams have been taken out of it.
    pub open spec fn drained(self) -> World {
        World { inputs: Map::empty(), outputs: Map::empty(), waiting: Seq::empty(), ..self }
    }
}

/// Of entities that all hold both an input and an output, each has its pair
/// of streams among the pairs in its own place.
pub proof fn lemma_pairs_of_bound(world: World, entities: Seq<Entity>)
    requires
        forall|i: int|
            0 <= i < entities.len() ==> world.inputs.contains_key(#[trigger] entities[i])
                && world.outputs.contains_key(entities[i]),
    ensures
        world.pairs_of(entities).len() == entities.len(),
        forall|i: int|
            0 <= i < entities.len() ==> #[trigger] world.pairs_of(entities)[i] == (
                world.inputs[entities[i]],
                world.outputs[entities[i]],
            ),
    decreases entities.len(),
{
    if entities.len() > 0 {
        lemma_pairs_of_bound(world, entities.drop_last());
        assert(world.inputs.contains_key(entities[entities.len() - 1]));
        assert forall|i: int| 0 <= i < entities.len() - 1 implies world.inputs.contains_key(
            #[trigger] entities.drop_last()[i],
        ) && world.outputs.contains_key(entities.drop_last()[i]) by {
            assert(entities.drop_last()[i] == entities[i]);
        }
    }
}

impl Area {
    /// Takes all streams out of the arena: those that the actors hold, in
    /// the order of the actors, then those that were set aside. A stream
    /// without its counterpart is dropped.
    pub fn extract_io_pairs(&mut self) -> (r: Vec<(Input, Output)>)
        ensures
            pair_views(r@) == old(self)@.io_pairs(),
            final(self)@ == old(self)@.drained(),
    {
        let actors = self.all_actors();
        let mut result: Vec<(Input, Output)> = Vec::new();
        let mut i: usize = 0;
        assert(pair_views(result@) =~= old(self)@.pairs_of(actors@.take(0)));
        while i < actors.len()
            invariant
                i <= actors@.len(),
                actors@ == old(self)@.actors(),
                old(self)@.is_roll(actors@),
                pair_views(result@) == old(self)@.pairs_of(actors@.take(i as int)),
                self.positions == old(self).positions,
                self.appearances == old(self).appearances,
                self.pushables == old(self).pushables,
                self.cooldowns == old(self).cooldowns,
                self.entities.next_id == old(self).entities.next_id,
                self.participants_in_waiting@ == old(self).participants_in_waiting@,
                forall|entity: Entity|
                    self.inputs@.contains_key(entity) <==> old(self).inputs@.contains_key(entity)
                        && !actors@.take(i as int).contains(entity),
                forall|entity: Entity|
                    self.inputs@.contains_key(entity) ==> self.inputs@[entity] == old(
                        self,
                    ).inputs@[entity],
                forall|j: int|
                    i <= j < actors@.len() ==> (self.outputs@.contains_key(actors@[j]) <==> old(
                        self,
                    ).outputs@.contains_key(actors@[j])),
                forall|j: int|
                    i <= j < actors@.len() && self.outputs@.contains_key(actors@[j])
                        ==> self.outputs@[actors@[j]] == old(self).outputs@[actors@[j]],
            decreases actors@.len() - i,
        {
            let entity = actors[i];
            let ghost before = result@;
            assert(actors@.contains(entity));
            assert(!actors@.take(i as int).contains(entity)) by {
                if actors@.take(i as int).contains(entity) {
                    let j = choose|j: int|
                        0 <= j < i && actors@.take(i as int)[j] == entity;
                    assert(actors@[j].0 < actors@[i as int].0);
                }
            }
            match (self.inputs.detach(entity), self.outputs.detach(entity)) {
                (Some(input), Some(output)) => {
                    result.push((input, output));
                    assert(pair_views(result@) =~= pair_views(before).push((input@, output@)));
                },
                _ => (),
            }
            i = i + 1;
            proof {
                let sooner = actors@.take(i - 1);
                assert(actors@.take(i as int).drop_last() =~= sooner);
                assert(actors@.take(i as int).last() == entity);
                assert forall|other: Entity|
                    self.inputs@.contains_key(other) <==> old(self).inputs@.contains_key(other)
                        && !actors@.take(i as int).contains(other) by {
                    if actors@.take(i as int).contains(other) {
                        let j = choose|j: int|
                            0 <= j < i && actors@.take(i as int)[j] == other;
                        if j < i - 1 {
                            assert(sooner[j] == other);
                        }
                    }
                    if sooner.contains(other) {
                        let j = choose|j: int| 0 <= j < sooner.len() && sooner[j] == other;
                        assert(actors@.take(i as int)[j] == other);
                    }
                }
                assert forall|j: int| i <= j < actors@.len() implies actors@[j] != entity by {
                    assert(actors@[i - 1].0 < actors@[j].0);
                }
            }
        }
        assert(actors@.take(i as int) =~= actors@);
        self.inputs = Components::new();
        self.outputs = Components::new();
        let mut waiting: Vec<(Input, Output)> = Vec::new();
        core::mem::swap(&mut waiting, &mut self.participants_in_waiting);
        let ghost bound = result@;
        let ghost set_aside = waiting@;
        for pair in it: waiting
            invariant
                it.seq() == set_aside,
                result@ == bound + set_aside.take(it.index()),
        {
            result.push(pair);
            assert(result@ =~= bound + set_aside.take(it.index() + 1));
        }
        proof {
            assert(set_aside.take(set_aside.len() as int) =~= set_aside);
            assert(pair_views(result@) =~= pair_views(bound) + pair_views(set_aside));
            assert(self@.inputs =~= Map::empty());
            assert(self@.outputs =~= Map::empty());
            assert(self@.waiting =~= Seq::empty());
        }
        result
    }
}

/// The largest number of participants that an arena can be generated for:
/// with one more, seven times the number of its cells is no `i32`.
pub const MAX_PARTICIPANTS: usize = 17505;

/// The side length of the arena for the given number of bots: ten cells and
/// one more for each bot.
pub open spec fn side_for(bots: nat) -> int {
    10 + bots as int
}

/// The cells inside an arena of the given side length.
pub open spec fn interior(length: int) -> Rectangle {
    Rectangle {
        topleft: Position(Vector2 { x: 0i32, y: 0i32 }),
        size: Offset(Vector2 { x: length as i32, y: length as i32 }),
    }
}

/// The cells of an arena of the given side length together with those
/// around it: one more row to the north and column to the west, two more to
/// the south and the east.
pub open spec fn surroundings(length: int) -> Rectangle {
    Rectangle {
        topleft: Position(Vector2 { x: -1i32, y: -1i32 }),
        size: Offset(Vector2 { x: (length + 3) as i32, y: (length + 3) as i32 }),
    }
}

/// Whether a cell lies outside an arena of the given side length.
pub open spec fn outside(length: int) -> spec_fn(Position) -> bool {
    |position: Position| !interior(length).contains_spec(position)
}

/// The cells around an arena of the given side length, row by row.
pub open spec fn frame(length: int) -> Seq<Position> {
    surroundings(length).cells().filter(outside(length))
}

/// Whether `chosen` may be drawn from `cells`: it is the beginning of
/// `cells` put in some order.
pub open spec fn is_selection(cells: Seq<Position>, chosen: Seq<Position>) -> bool {
    exists|shuffled: Seq<Position>|
        #![trigger shuffled.to_multiset()]
        shuffled.to_multiset() == cells.to_multiset() && chosen.len() <= shuffled.len() && chosen
            == shuffled.take(chosen.len() as int)
}

/// The cells in which the bots of an arena are made: the last of the chosen
/// cells, the last one first.
pub open spec fn bot_sites(bots: nat, chosen: Seq<Position>) -> Seq<Position> {
    Seq::new(bots, |k: int| chosen[chosen.len() - 1 - k])
}

/// The cells of an arena in which its entities are made, in the order in
/// which they are made: the bots in the last of the chosen cells, the last
/// cell first; the blocks in the other chosen cells; an abyss in each cell
/// of the frame.
pub open spec fn sites(bots: nat, chosen: Seq<Position>, length: int) -> Seq<Position> {
    bot_sites(bots, chosen) + chosen.take(chosen.len() - bots) + frame(length)
}

impl World {
    /// The arena that holds one entity in each of the sites, the `k`-th made
    /// in the `k`-th site: first one bot for each pair of streams, then the
    /// given number of blocks, then abysses.
    pub open spec fn laid_out(
        streams: Seq<(Seq<u8>, Sink)>,
        sites: Seq<Position>,
        blocks: nat,
    ) -> World {
        World {
            positions: Map::new(
                |entity: Entity| entity.0 < sites.len(),
                |entity: Entity| sites[entity.0 as int],
            ),
            appearances: Map::new(
                |entity: Entity| entity.0 < sites.len(),
                |entity: Entity|
                    if entity.0 < streams.len() {
                        Appearance::Bot
                    } else if entity.0 < streams.len() + blocks {
                        Appearance::Block
                    } else {
                        Appearance::Abyss
                    },
            ),
            pushables: Map::new(
                |entity: Entity| entity.0 < sites.len(),
                |entity: Entity|
                    if entity.0 < streams.len() {
                        Pushable::Squishable
                    } else if entity.0 < streams.len() + blocks {
                        Pushable::Heavy
                    } else {
                        Pushable::DestroysEnterer
                    },
            ),
            inputs: Map::new(
                |entity: Entity| entity.0 < streams.len(),
                |entity: Entity| streams[entity.0 as int].0,
            ),
            outputs: Map::new(
                |entity: Entity| entity.0 < streams.len(),
                |entity: Entity| streams[entity.0 as int].1,
            ),
            cooldowns: Map::empty(),
            waiting: Seq::empty(),
            next_id: sites.len() as u32,
        }
    }

    /// The arena for the given streams in which the bots and blocks stand in
    /// the chosen cells.
    pub open spec fn arena(streams: Seq<(Seq<u8>, Sink)>, chosen: Seq<Position>) -> World {
        World::laid_out(
            streams,
            sites(streams.len(), chosen, side_for(streams.len())),
            (chosen.len() - streams.len()) as nat,
        )
    }

    /// Whether the arena may have been generated for the given streams: its
    /// bots and blocks stand in cells drawn from its interior, and they take
    /// up at least a quarter and less than seven eighths of it.
    pub open spec fn is_arena_for(self, streams: Seq<(Seq<u8>, Sink)>) -> bool {
        let length = side_for(streams.len());
        exists|chosen: Seq<Position>|
            #![trigger World::arena(streams, chosen)]
            {
                &&& is_selection(interior(length).cells(), chosen)
                &&& length * length / 4 <= chosen.len() < length * length * 7 / 8
                &&& self == World::arena(streams, chosen)
            }
    }
}

/// The cells of the rectangle that no entity of the arena stands in, in the
/// order in which the rectangle is enumerated.
pub fn unoccupied_positions(area: &Area, bounds: Rectangle) -> (r: Vec<Position>)
    ensures
        r@ == bounds.cells().filter(|position: Position| !area@.occupied(position)),
{
    let cells = bounds.positions();
    let ghost free = |position: Position| !area@.occupied(position);
    let mut r: Vec<Position> = Vec::new();
    let mut i: usize = 0;
    assert(cells@.take(0) =~= Seq::<Position>::empty());
    while i < cells.len()
        invariant
            i <= cells@.len(),
            cells@ == bounds.cells(),
            free == |position: Position| !area@.occupied(position),
            r@ == cells@.take(i as int).filter(free),
        decreases cells@.len() - i,
    {
        let position = cells[i];
        let taken = area.positions.occupied(position);
        proof {
            if taken {
                let entity = choose|entity: Entity|
                    area.positions@.contains_key(entity) && area.positions@[entity] == position;
                assert(area@.occupies(entity, position));
            }
            if area@.occupied(position) {
                let entity = choose|entity: Entity| area@.occupies(entity, position);
                assert(area.positions@.contains_key(entity) && area.positions@[entity]
                    == position);
            }
            assert(cells@.take(i + 1) =~= cells@.take(i as int).push(position));
            cells@.take(i as int).lemma_filter_push(position, free);
        }
        if !taken {
            r.push(position);
        }
        i = i + 1;
    }
    assert(cells@.take(i as int) =~= cells@);
    r
}

/// One of the cells of the rectangle that no entity of the arena stands in,
/// drawn at random, or nothing where an entity stands in each.
pub fn random_unoccupied_position(area: &Area, bounds: Rectangle) -> (r: Option<Position>)
    ensures
        match r {
            Some(position) => bounds.cells().contains(position) && !area@.occupied(position),
            None => forall|i: int|
                0 <= i < bounds.cells().len() ==> area@.occupied(#[trigger] bounds.cells()[i]),
        },
{
    let free_cells = unoccupied_positions(area, bounds);
    let ghost free = |position: Position| !area@.occupied(position);
    let mut rng = thread_generator();
    let r = choose_among(&mut rng, &free_cells);
    proof {
        match r {
            Some(position) => {
                bounds.cells().lemma_filter_contains_rev(free, position);
            },
            None => {
                assert forall|i: int| 0 <= i < bounds.cells().len() implies area@.occupied(
                    #[trigger] bounds.cells()[i],
                ) by {
                    if free(bounds.cells()[i]) {
                        bounds.cells().lemma_filter_contains(free, i);
                    }
                }
            },
        }
    }
    r
}

/// Cells of the rectangle drawn at random: at most `limit` of them, and all
/// of them where `limit` is no less than their number. The arena is not
/// looked at, so the cells are unoccupied only where the arena is empty.
pub fn random_unoccupied_position_list(area: &Area, bounds: Rectangle, limit: usize) -> (r: Vec<
    Position,
>)
    ensures
        is_selection(bounds.cells(), r@),
        r@.len() == (if limit <= bounds.count() {
            limit as int
        } else {
            bounds.count()
        }),
{
    let mut rng = thread_generator();
    let mut positions = bounds.positions();
    shuffle(&mut rng, &mut positions);
    let ghost shuffled = positions@;
    proof {
        vstd::seq_lib::to_multiset_len(shuffled);
        vstd::seq_lib::to_multiset_len(bounds.cells());
    }
    positions.truncate(limit);
    assert(positions@ =~= shuffled.take(positions@.len() as int));
    positions
}

/// Makes a block in the cell where the draw is 0, and an abyss where it is
/// not.
pub fn make_obstacle(area: &mut Area, position: Position, draw: i32) -> (entity: Entity)
    requires
        old(area)@.next_id < u32::MAX,
    ensures
        entity == Entity(old(area)@.next_id),
        draw == 0 ==> final(area)@ == old(area)@.spawned(
            position,
            Appearance::Block,
            Pushable::Heavy,
        ),
        draw != 0 ==> final(area)@ == old(area)@.spawned(
            position,
            Appearance::Abyss,
            Pushable::DestroysEnterer,
        ),
{
    match draw {
        0 => make_block(area, position),
        _ => make_abyss(area, position),
    }
}

/// Seating a bot with its streams in an arena that holds bots only adds the
/// bot's site and streams to those that the arena is laid out with.
pub proof fn lemma_seat_bot(
    streams: Seq<(Seq<u8>, Sink)>,
    sites: Seq<Position>,
    position: Position,
    pair: (Seq<u8>, Sink),
)
    requires
        sites.len() == streams.len(),
        sites.len() < u32::MAX,
    ensures
        ({
            let made = World::laid_out(streams, sites, 0).spawned(
                position,
                Appearance::Bot,
                Pushable::Squishable,
            );
            let bot = Entity(sites.len() as u32);
            World {
                inputs: made.inputs.insert(bot, pair.0),
                outputs: made.outputs.insert(bot, pair.1),
                ..made
            }
        }) == World::laid_out(streams.push(pair), sites.push(position), 0),
{
    let made = World::laid_out(streams, sites, 0).spawned(
        position,
        Appearance::Bot,
        Pushable::Squishable,
    );
    let bot = Entity(sites.len() as u32);
    let seated = World {
        inputs: made.inputs.insert(bot, pair.0),
        outputs: made.outputs.insert(bot, pair.1),
        ..made
    };
    let after = World::laid_out(streams.push(pair), sites.push(position), 0);
    assert(seated.positions =~= after.positions);
    assert(seated.appearances =~= after.appearances);
    assert(seated.pushables =~= after.pushables);
    assert(seated.inputs =~= after.inputs);
    assert(seated.outputs =~= after.outputs);
}

/// Making a block in an arena that holds bots and blocks only adds the
/// block's site to those that the arena is laid out with.
pub proof fn lemma_place_block(
    streams: Seq<(Seq<u8>, Sink)>,
    sites: Seq<Position>,
    blocks: nat,
    position: Position,
)
    requires
        sites.len() == streams.len() + blocks,
        sites.len() < u32::MAX,
    ensures
        World::laid_out(streams, sites, blocks).spawned(
            position,
            Appearance::Block,
            Pushable::Heavy,
        ) == World::laid_out(streams, sites.push(position), blocks + 1),
{
    let made = World::laid_out(streams, sites, blocks).spawned(
        position,
        Appearance::Block,
        Pushable::Heavy,
    );
    let after = World::laid_out(streams, sites.push(position), blocks + 1);
    assert(made.positions =~= after.positions);
    assert(made.appearances =~= after.appearances);
    assert(made.pushables =~= after.pushables);
}

/// Making an abyss in an arena that has all its bots and blocks adds the
/// site of the abyss to those that the arena is laid out with.
pub proof fn lemma_place_abyss(
    streams: Seq<(Seq<u8>, Sink)>,
    sites: Seq<Position>,
    blocks: nat,
    position: Position,
)
    requires
        sites.len() >= streams.len() + blocks,
        sites.len() < u32::MAX,
    ensures
        World::laid_out(streams, sites, blocks).spawned(
            position,
            Appearance::Abyss,
            Pushable::DestroysEnterer,
        ) == World::laid_out(streams, sites.push(position), blocks),
{
    let made = World::laid_out(streams, sites, blocks).spawned(
        position,
        Appearance::Abyss,
        Pushable::DestroysEnterer,
    );
    let after = World::laid_out(streams, sites.push(position), blocks);
    assert(made.positions =~= after.positions);
    assert(made.appearances =~= after.appearances);
    assert(made.pushables =~= after.pushables);
}

/// Builds the arena for the participants in which the bots and the blocks
/// stand in the given cells.
pub fn lay_out(participants: Vec<(Input, Output)>, positions: Vec<Position>) -> (area: Area)
    requires
        participants@.len() <= MAX_PARTICIPANTS,
        participants@.len() <= positions@.len() <= (10 + participants@.len()) * (10
            + participants@.len()),
    ensures
        area@ == World::arena(pair_views(participants@), positions@),
{
    let ghost streams = pair_views(participants@);
    let ghost chosen = positions@;
    let ghost bots = participants@.len();
    let ghost blocks = (chosen.len() - bots) as nat;
    let ghost side = 10 + bots as int;
    let length: i32 = 10 + participants.len() as i32;
    let bounds = Rectangle::wh(Direction::East * length + Direction::South * length);
    proof {
        lemma_unit_times(length);
        assert(bounds == interior(side));
        assert(side * side <= 306775225) by (nonlinear_arith)
            requires
                10 <= side <= 17515,
        ;
        assert((side + 3) * (side + 3) <= 306880324) by (nonlinear_arith)
            requires
                10 <= side <= 17515,
        ;
    }
    let mut area = Area::new();
    let mut rng = thread_generator();
    let mut positions = positions;
    let ghost all = participants@;
    proof {
        let start = World::laid_out(streams.take(0), bot_sites(0, chosen), 0);
        assert(area@.positions =~= start.positions);
        assert(area@.appearances =~= start.appearances);
        assert(area@.pushables =~= start.pushables);
        assert(area@.inputs =~= start.inputs);
        assert(area@.outputs =~= start.outputs);
    }
    for pair in it: participants
        invariant
            it.seq() == all,
            streams == pair_views(all),
            bots == all.len(),
            bots <= chosen.len(),
            bots <= 17505,
            positions@ == chosen.take(chosen.len() - it.index()),
            area@ == World::laid_out(
                streams.take(it.index()),
                bot_sites(it.index() as nat, chosen),
                0,
            ),
    {
        let ghost made = it.index();
        let ghost before = area@;
        assert(made < bots);
        match positions.pop() {
            None => {},
            Some(position) => {
                let bot = make_bot(&mut area, position);
                area.inputs.attach(bot, pair.0);
                area.outputs.attach(bot, pair.1);
                proof {
                    assert(position == chosen[chosen.len() - 1 - made]);
                    assert(positions@ =~= chosen.take(chosen.len() - (made + 1)));
                    assert(streams[made] == (pair.0@, pair.1@));
                    lemma_seat_bot(
                        streams.take(made),
                        bot_sites(made as nat, chosen),
                        position,
                        streams[made],
                    );
                    assert(streams.take(made + 1) =~= streams.take(made).push(streams[made]));
                    assert(bot_sites((made + 1) as nat, chosen) =~= bot_sites(
                        made as nat,
                        chosen,
                    ).push(position));
                    assert(area@.inputs =~= before.spawned(
                        position,
                        Appearance::Bot,
                        Pushable::Squishable,
                    ).inputs.insert(bot, pair.0@));
                    assert(area@.outputs =~= before.spawned(
                        position,
                        Appearance::Bot,
                        Pushable::Squishable,
                    ).outputs.insert(bot, pair.1@));
                }
            },
        }
    }
    let ghost rest = positions@;
    proof {
        assert(streams.take(bots as int) =~= streams);
        assert(rest == chosen.take(chosen.len() - bots));
    }
    for position in it: positions
        invariant
            it.seq() == rest,
            rest.len() == blocks,
            bots + blocks <= 306775225,
            streams.len() == bots,
            bot_sites(bots, chosen).len() == bots,
            area@ == World::laid_out(
                streams,
                bot_sites(bots, chosen) + rest.take(it.index()),
                it.index() as nat,
            ),
    {
        let ghost made = it.index();
        assert(made < blocks);
        let draw = random_between(&mut rng, 0, 1);
        make_obstacle(&mut area, position, draw);
        proof {
            assert(rest.take(made + 1) =~= rest.take(made).push(position));
            assert(bot_sites(bots, chosen) + rest.take(made + 1) =~= (bot_sites(bots, chosen)
                + rest.take(made)).push(position));
            lemma_place_block(
                streams,
                bot_sites(bots, chosen) + rest.take(made),
                made as nat,
                position,
            );
        }
    }
    proof {
        assert(rest.take(rest.len() as int) =~= rest);
    }
    let outer_bounds = Rectangle::corners(
        Position::zero() + Direction::West + Direction::North,
        Position::zero() + Direction::East * (length + 1) + Direction::South * (length + 1),
    );
    proof {
        lemma_unit_times((length + 1) as i32);
        assert(outer_bounds == surroundings(side));
        assert(outer_bounds.count() == (side + 3) * (side + 3));
    }
    let outer = outer_bounds.positions();
    let ghost inner_sites = bot_sites(bots, chosen) + rest;
    let mut i: usize = 0;
    assert(outer@.take(0).filter(outside(side)) =~= Seq::<Position>::empty()) by {
        assert(outer@.take(0) =~= Seq::<Position>::empty());
    }
    assert(inner_sites + Seq::<Position>::empty() =~= inner_sites);
    while i < outer.len()
        invariant
            i <= outer@.len(),
            outer@ == surroundings(side).cells(),
            outer@.len() <= 306880324,
            bounds == interior(side),
            inner_sites.len() == bots + blocks,
            bots + blocks <= 306775225,
            streams.len() == bots,
            area@ == World::laid_out(
                streams,
                inner_sites + outer@.take(i as int).filter(outside(side)),
                blocks,
            ),
        decreases outer@.len() - i,
    {
        let position = outer[i];
        let ghost so_far = outer@.take(i as int).filter(outside(side));
        proof {
            assert(outer@.take(i + 1) =~= outer@.take(i as int).push(position));
            outer@.take(i as int).lemma_filter_push(position, outside(side));
            outer@.take(i as int).lemma_filter_len(outside(side));
        }
        if !bounds.contains(position) {
            make_abyss(&mut area, position);
            proof {
                assert(inner_sites + so_far.push(position) =~= (inner_sites + so_far).push(
                    position,
                ));
                lemma_place_abyss(streams, inner_sites + so_far, blocks, position);
            }
        }
        i = i + 1;
    }
    proof {
        assert(outer@.take(i as int) =~= outer@);
        assert(inner_sites + frame(side) =~= sites(bots, chosen, side));
    }
    area
}

/// A sequence without duplicates has none left once it has been filtered.
pub proof fn lemma_filter_distinct(cells: Seq<Position>, keep: spec_fn(Position) -> bool)
    requires
        cells.no_duplicates(),
    ensures
        cells.filter(keep).no_duplicates(),
    decreases cells.len(),
{
    if cells.len() > 0 {
        let sooner = cells.drop_last();
        let last = cells.last();
        lemma_filter_distinct(sooner, keep);
        assert(cells =~= sooner.push(last));
        sooner.lemma_filter_push(last, keep);
        if keep(last) {
            let kept = sooner.filter(keep);
            assert forall|i: int| 0 <= i < kept.len() implies kept[i] != last by {
                if kept[i] == last {
                    assert(kept.contains(last));
                    sooner.lemma_filter_contains_rev(keep, last);
                    let j = choose|j: int| 0 <= j < sooner.len() && sooner[j] == last;
                    assert(cells[j] == cells[cells.len() - 1]);
                }
            }
        }
    } else {
        assert(cells.filter(keep).len() == 0) by {
            cells.lemma_filter_len(keep);
        }
    }
}

/// Cells drawn from cells that are all different are all different, and
/// each of them is one of the cells they were drawn from.
pub proof fn lemma_selection_distinct(cells: Seq<Position>, chosen: Seq<Position>)
    requires
        cells.no_duplicates(),
        is_selection(cells, chosen),
    ensures
        chosen.no_duplicates(),
        chosen.len() <= cells.len(),
        forall|i: int| 0 <= i < chosen.len() ==> cells.contains(#[trigger] chosen[i]),
{
    let shuffled = choose|shuffled: Seq<Position>|
        #![trigger shuffled.to_multiset()]
        shuffled.to_multiset() == cells.to_multiset() && chosen.len() <= shuffled.len() && chosen
            == shuffled.take(chosen.len() as int);
    cells.lemma_multiset_has_no_duplicates();
    shuffled.lemma_multiset_has_no_duplicates_conv();
    vstd::seq_lib::to_multiset_len(shuffled);
    vstd::seq_lib::to_multiset_len(cells);
    assert forall|i: int| 0 <= i < chosen.len() implies cells.contains(
        #[trigger] chosen[i],
    ) by {
        assert(shuffled.contains(shuffled[i]));
        vstd::seq_lib::to_multiset_contains(shuffled, shuffled[i]);
        vstd::seq_lib::to_multiset_contains(cells, shuffled[i]);
    }
}

/// What holds of every arena that is generated: no two of its entities
/// stand in the same cell; it is sound; its bots hold the streams of the
/// participants, in their order, and stand inside; whatever else stands
/// inside is a block; and an abyss lies in every cell around it.
pub proof fn lemma_arena_well_formed(world: World, streams: Seq<(Seq<u8>, Sink)>)
    requires
        streams.len() <= MAX_PARTICIPANTS,
        world.is_arena_for(streams),
    ensures
        world.positions_unique(),
        world.sound(),
        world.waiting.len() == 0,
        forall|entity: Entity|
            world.inputs.contains_key(entity) <==> entity.0 < streams.len(),
        forall|entity: Entity|
            #![trigger world.inputs[entity]]
            #![trigger world.outputs[entity]]
            entity.0 < streams.len() ==> world.inputs[entity] == streams[entity.0 as int].0
                && world.outputs[entity] == streams[entity.0 as int].1,
        forall|entity: Entity| #[trigger]
            world.positions.contains_key(entity) && world.appearances[entity]
                != Appearance::Abyss ==> interior(side_for(streams.len())).contains_spec(
                world.positions[entity],
            ),
        forall|entity: Entity| #[trigger]
            world.appearances.contains_key(entity) ==> (world.appearances[entity]
                == Appearance::Bot <==> entity.0 < streams.len()) && world.appearances[entity]
                != Appearance::Floor,
        forall|position: Position|
            surroundings(side_for(streams.len())).contains_spec(position) && !interior(
                side_for(streams.len()),
            ).contains_spec(position) ==> #[trigger] world.appearance_at(position)
                == Appearance::Abyss,
{
    let side = 10 + streams.len() as int;
    let bots = streams.len();
    let chosen = choose|chosen: Seq<Position>|
        #![trigger World::arena(streams, chosen)]
        {
            &&& is_selection(interior(side).cells(), chosen)
            &&& side * side / 4 <= chosen.len() < side * side * 7 / 8
            &&& world == World::arena(streams, chosen)
        };
    let blocks = (chosen.len() - bots) as nat;
    assert(side * side >= 4 * bots) by (nonlinear_arith)
        requires
            side == 10 + bots,
    ;
    assert(side * side <= 306775225) by (nonlinear_arith)
        requires
            10 <= side <= 17515,
    ;
    assert((side + 3) * (side + 3) <= 306880324) by (nonlinear_arith)
        requires
            10 <= side <= 17515,
    ;
    let cells = interior(side).cells();
    lemma_cells_distinct(interior(side));
    lemma_selection_distinct(cells, chosen);
    let seats = bot_sites(bots, chosen);
    let rest = chosen.take(chosen.len() - bots);
    let around = frame(side);
    let all = sites(bots, chosen, side);
    assert forall|i: int| 0 <= i < chosen.len() implies interior(side).contains_spec(
        #[trigger] chosen[i],
    ) by {
        assert(cells.contains(chosen[i]));
        let j = choose|j: int| 0 <= j < cells.len() && cells[j] == chosen[i];
        lemma_cells_contained(interior(side), j);
    }
    lemma_cells_distinct(surroundings(side));
    lemma_filter_distinct(surroundings(side).cells(), outside(side));
    surroundings(side).cells().lemma_filter_len(outside(side));
    assert(surroundings(side).count() == (side + 3) * (side + 3));
    assert forall|i: int| 0 <= i < around.len() implies !interior(side).contains_spec(
        #[trigger] around[i],
    ) by {
        surroundings(side).cells().lemma_filter_pred(outside(side), i);
    }
    assert(all.len() == bots + blocks + around.len());
    assert forall|i: int| 0 <= i < all.len() implies (#[trigger] all[i]) == (if i < bots {
        chosen[chosen.len() - 1 - i]
    } else if i < bots + blocks {
        chosen[i - bots]
    } else {
        around[i - bots - blocks]
    }) by {}
    assert forall|i: int, j: int| 0 <= i < all.len() && 0 <= j < all.len() && i != j implies all[i]
        != all[j] by {
        if i >= bots + blocks && j >= bots + blocks {
            assert(around[i - bots - blocks] != around[j - bots - blocks]);
        } else if i >= bots + blocks {
            assert(!interior(side).contains_spec(around[i - bots - blocks]));
        } else if j >= bots + blocks {
            assert(!interior(side).contains_spec(around[j - bots - blocks]));
        } else {
            let a = if i < bots {
                chosen.len() - 1 - i
            } else {
                i - bots
            };
            let b = if j < bots {
                chosen.len() - 1 - j
            } else {
                j - bots
            };
            assert(chosen[a] != chosen[b]);
        }
    }
    assert(world.positions_unique()) by {
        assert forall|a: Entity, b: Entity|
            world.positions.contains_key(a) && world.positions.contains_key(b)
                && world.positions[a] == world.positions[b] implies a == b by {
            if a.0 != b.0 {
                assert(all[a.0 as int] != all[b.0 as int]);
            }
        }
    }
    assert forall|entity: Entity| #[trigger]
        world.positions.contains_key(entity) && world.appearances[entity]
            != Appearance::Abyss implies interior(side).contains_spec(world.positions[entity]) by {
        let i = entity.0 as int;
        assert(world.positions[entity] == all[i]);
    }
    assert forall|position: Position|
        surroundings(side).contains_spec(position) && !interior(side).contains_spec(
            position,
        ) implies #[trigger] world.appearance_at(position) == Appearance::Abyss by {
        lemma_contained_is_cell(surroundings(side), position);
        let j = choose|j: int|
            0 <= j < surroundings(side).cells().len() && surroundings(side).cells()[j]
                == position;
        surroundings(side).cells().lemma_filter_contains(outside(side), j);
        let k = choose|k: int| 0 <= k < around.len() && around[k] == position;
        let entity = Entity((bots + blocks + k) as u32);
        assert(all[bots + blocks + k] == position);
        assert(world.occupies(entity, position));
        let found = world.occupant(position)->Some_0;
        assert(world.occupies(found, position));
        assert(found == entity);
    }
}

/// Generates the arena for a round among the participants: a square with a
/// side of ten cells and one more for each participant, an abyss all around
/// it, and inside it one bot for each participant and blocks, in cells
/// drawn at random that take up at least a quarter and less than seven
/// eighths of the square.
pub fn generate_area(participants: Vec<(Input, Output)>) -> (area: Area)
    requires
        participants@.len() <= MAX_PARTICIPANTS,
    ensures
        area@.is_arena_for(pair_views(participants@)),
        area@.positions_unique(),
        area@.sound(),
{
    let ghost streams = pair_views(participants@);
    let ghost side = 10 + participants@.len() as int;
    let length: i32 = 10 + participants.len() as i32;
    let bounds = Rectangle::wh(Direction::East * length + Direction::South * length);
    proof {
        lemma_unit_times(length);
        assert(bounds == interior(side));
        assert(side * side <= 306775225) by (nonlinear_arith)
            requires
                10 <= side <= 17515,
        ;
        assert(side * side >= 100) by (nonlinear_arith)
            requires
                10 <= side,
        ;
        assert(side * side >= 4 * (side - 10)) by (nonlinear_arith)
            requires
                10 <= side,
        ;
        assert(bounds.area_spec() == side * side);
        assert(bounds.count() == side * side);
    }
    let area = Area::new();
    let mut rng = thread_generator();
    let limit = random_between(&mut rng, bounds.area() / 4, bounds.area() * 7 / 8) as usize;
    let positions = random_unoccupied_position_list(&area, bounds, limit);
    let ghost chosen = positions@;
    let area = lay_out(participants, positions);
    proof {
        assert(area@ == World::arena(streams, chosen));
        assert(area@.is_arena_for(streams));
        lemma_arena_well_formed(area@, streams);
    }
    area
}

/// Whether the streams may be what is left of a round among the bots that
/// hold the given streams: the streams that are left when an arena that was
/// generated for the bots has been played until at most one actor was left.
pub open spec fn is_round_outcome(
    streams: Seq<(Seq<u8>, Sink)>,
    outcome: Seq<(Seq<u8>, Sink)>,
) -> bool {
    exists|arena: World, count: nat|
        #![trigger arena.passes(count)]
        arena.is_arena_for(streams) && arena.settles_after(count) && outcome == arena.passes(
            count,
        ).io_pairs()
}

/// Plays one round among the participants and leaves in their place those
/// whose streams are left: the streams of the bot that has won, if any, and
/// of the bots that were destroyed. The bots that were disconnected are
/// gone.
pub fn execute_round(participants: &mut Vec<(Input, Output)>)
    requires
        old(participants)@.len() <= MAX_PARTICIPANTS,
    ensures
        is_round_outcome(pair_views(old(participants)@), pair_views(final(participants)@)),
{
    let mut roster: Vec<(Input, Output)> = Vec::new();
    core::mem::swap(participants, &mut roster);
    let mut area = generate_area(roster);
    let ghost arena = area@;
    area.act_all();
    let ghost count = choose|count: nat|
        arena.settles_after(count) && area@ == arena.passes(count);
    let mut pairs = area.extract_io_pairs();
    core::mem::swap(participants, &mut pairs);
    assert(pair_views(participants@) == arena.passes(count).io_pairs());
}

} // verus!
