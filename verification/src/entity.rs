//! Entity handles and the stores that attach components to them.

use std::collections::HashMap;
use vstd::prelude::*;
use vstd::std_specs::hash::{axiom_spec_keys_iter, spec_keys_iter};
use vstd::std_specs::iter::IteratorSpec;

verus! {

/// A handle that stands for one thing in the arena. It carries no data of its
/// own: what an entity is follows from the components attached to it.
#[derive(Copy, Clone, Hash, PartialEq, Eq, Structural, Debug, PartialOrd, Ord)]
pub struct Entity(pub u32);

/// The source of fresh entities.
pub struct Entities {
    pub next_id: u32,
}

impl Entities {
    /// A source that has handed out no entity yet.
    pub fn new() -> (r: Entities)
        ensures
            r.next_id == 0,
    {
        Entities { next_id: 0 }
    }

    /// Whether this source has handed the entity out.
    pub open spec fn minted(&self, entity: Entity) -> bool {
        entity.0 < self.next_id
    }

    /// A fresh entity: one that this source has not handed out before.
    pub fn make(&mut self) -> (r: Entity)
        requires
            old(self).next_id < u32::MAX,
        ensures
            r == Entity(old(self).next_id),
            final(self).next_id == old(self).next_id + 1,
            !old(self).minted(r),
            final(self).minted(r),
            forall|e: Entity| old(self).minted(e) ==> final(self).minted(e),
    {
        let result = Entity(self.next_id);
        self.next_id += 1;
        result
    }
}

/// The components of one kind, each attached to an entity.
pub struct Components<R> {
    pub contents: HashMap<u32, R>,
}

impl<R> View for Components<R> {
    type V = Map<Entity, R>;

    /// The component of each entity that has one.
    open spec fn view(&self) -> Map<Entity, R> {
        Map::new(
            |entity: Entity| self.contents@.contains_key(entity.0),
            |entity: Entity| self.contents@[entity.0],
        )
    }
}

/// `HashMap::get_mut` on a map keyed by integers: a mutable reference to the
/// value stored under the key, if there is one. Whatever the caller writes
/// through the reference is what the map holds under the key afterwards, and
/// nothing else in the map changes.
#[verifier::external_body]
fn slot_of<R>(contents: &mut HashMap<u32, R>, key: u32) -> (r: Option<&mut R>)
    ensures
        match r {
            Some(value) => {
                &&& old(contents)@.contains_key(key)
                &&& *value == old(contents)@[key]
                &&& final(contents)@ == old(contents)@.insert(key, *final(value))
            },
            None => {
                &&& !old(contents)@.contains_key(key)
                &&& final(contents)@ == old(contents)@
            },
        },
{
    contents.get_mut(&key)
}

impl<R> Components<R> {
    /// A store with nothing attached.
    pub fn new() -> (r: Components<R>)
        ensures
            r@ == Map::<Entity, R>::empty(),
    {
        let r = Components { contents: HashMap::new() };
        assert(r@ =~= Map::<Entity, R>::empty());
        r
    }

    /// Attaches the component to the entity, in place of any it had.
    pub fn attach(&mut self, entity: Entity, component: R)
        ensures
            final(self)@ == old(self)@.insert(entity, component),
    {
        self.contents.insert(entity.0, component);
        assert(self@ =~= old(self)@.insert(entity, component));
    }

    /// Whether the entity has a component in this store.
    pub fn attached(&self, entity: Entity) -> (r: bool)
        ensures
            r == self@.contains_key(entity),
    {
        self.contents.contains_key(&entity.0)
    }

    /// Takes the entity's component out of the store and returns it, if
    /// there was one.
    pub fn detach(&mut self, entity: Entity) -> (r: Option<R>)
        ensures
            final(self)@ == old(self)@.remove(entity),
            r == (if old(self)@.contains_key(entity) {
                Some(old(self)@[entity])
            } else {
                None
            }),
    {
        let r = self.contents.remove(&entity.0);
        assert(self@ =~= old(self)@.remove(entity));
        r
    }

    /// The entity's component, if it has one.
    pub fn of_ref(&self, entity: Entity) -> (r: Option<&R>)
        ensures
            r == (if self@.contains_key(entity) {
                Some(&self@[entity])
            } else {
                None
            }),
    {
        self.contents.get(&entity.0)
    }

    /// The entity's component for writing, if it has one. What the caller
    /// leaves behind the reference is the entity's component afterwards.
    pub fn of_mut_ref(&mut self, entity: Entity) -> (r: Option<&mut R>)
        ensures
            match r {
                Some(component) => {
                    &&& old(self)@.contains_key(entity)
                    &&& *component == old(self)@[entity]
                    &&& final(self)@ =~= old(self)@.insert(entity, *final(component))
                },
                None => {
                    &&& !old(self)@.contains_key(entity)
                    &&& final(self)@ =~= old(self)@
                },
            },
    {
        slot_of(&mut self.contents, entity.0)
    }
}

/// The keys of the map, each once, in the order in which the map hands them
/// out.
fn keys_of<R>(contents: &HashMap<u32, R>) -> (r: Vec<u32>)
    ensures
        r@.no_duplicates(),
        r@.to_set() == contents@.dom(),
{
    let mut r: Vec<u32> = Vec::new();
    let ghost all: Seq<u32> = IteratorSpec::remaining(&spec_keys_iter(contents)).unref();
    proof {
        axiom_spec_keys_iter(contents);
        assert(IteratorSpec::remaining(&spec_keys_iter(contents)).no_duplicates());
        assert(all.no_duplicates());
    }
    for key in it: contents.keys()
        invariant
            all == it.seq().unref(),
            r@ == all.take(it.index()),
    {
        r.push(*key);
        assert(r@ =~= all.take(it.index() + 1));
    }
    assert(r@ =~= all);
    r
}

impl<R> Components<R> {
    /// The entities that have a component in this store, each once, in no
    /// particular order.
    pub fn entities(&self) -> (r: Vec<Entity>)
        ensures
            r@.no_duplicates(),
            forall|entity: Entity| r@.contains(entity) <==> self@.contains_key(entity),
    {
        let keys = keys_of(&self.contents);
        let mut r: Vec<Entity> = Vec::new();
        let mut i: usize = 0;
        while i < keys.len()
            invariant
                i <= keys@.len(),
                r@.len() == i,
                forall|j: int| 0 <= j < i ==> r@[j] == Entity(keys@[j]),
            decreases keys@.len() - i,
        {
            r.push(Entity(keys[i]));
            i = i + 1;
        }
        assert forall|entity: Entity| r@.contains(entity) <==> self@.contains_key(entity) by {
            if r@.contains(entity) {
                let j = choose|j: int| 0 <= j < r@.len() && r@[j] == entity;
                assert(keys@.to_set().contains(keys@[j]));
            }
            if self@.contains_key(entity) {
                assert(keys@.to_set().contains(entity.0));
                let j = choose|j: int| 0 <= j < keys@.len() && keys@[j] == entity.0;
                assert(r@[j] == entity);
            }
        }
        r
    }
}

impl<R: Copy> Components<R> {
    /// A copy of the entity's component, if it has one.
    pub fn of(&self, entity: Entity) -> (r: Option<R>)
        ensures
            r == (if self@.contains_key(entity) {
                Some(self@[entity])
            } else {
                None
            }),
    {
        match self.contents.get(&entity.0) {
            Some(component) => Some(*component),
            None => None,
        }
    }
}

} // verus!
