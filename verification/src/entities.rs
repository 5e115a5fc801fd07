use vstd::prelude::*;

use crate::allocator::{
    del_ids, kill_prefix_ok, kill_reachable_ok, merge_rel, spec_allocate_atomic, spec_is_alive,
    spec_kill_prefix, stored_gen, AllocModel, Allocator,
};
use crate::bits::MAX_INDEX;
use crate::entity::{Entity, Index};
use crate::error::WrongGeneration;

verus! {

/// Whether `n` atomic creations in a row stay within the machine limits of
/// the index space and the generation range.
pub open spec fn can_create_many(m: AllocModel, n: nat) -> bool
    decreases n,
{
    n == 0 || ({
        &&& (m.cache.len() == 0 ==> m.max_id < MAX_INDEX)
        &&& (m.cache.len() > 0 ==> stored_gen(m, m.cache.last()) >= 1 - i32::MAX)
        &&& can_create_many(spec_allocate_atomic(m).0, (n - 1) as nat)
    })
}

/// The state after `n` atomic creations, with the entities they issue, in
/// order.
pub open spec fn spec_create_many(m: AllocModel, n: nat) -> (AllocModel, Seq<(Index, int)>)
    decreases n,
{
    if n == 0 {
        (m, Seq::empty())
    } else {
        let first = spec_allocate_atomic(m);
        let rest = spec_create_many(first.0, (n - 1) as nat);
        (rest.0, seq![first.1] + rest.1)
    }
}

/// The entities of this ECS. This is a resource, stored in the `World`,
/// and a thin facade over the `Allocator`: creations and deletions made
/// through it are atomic and become persistent at the next maintenance.
pub struct EntitiesRes {
    pub(crate) alloc: Allocator,
}

impl View for EntitiesRes {
    type V = AllocModel;

    closed spec fn view(&self) -> AllocModel {
        self.alloc@
    }
}

impl Default for EntitiesRes {
    /// A fresh resource over a fresh allocator.
    fn default() -> (r: EntitiesRes)
        ensures
            r.wf(),
            r@ == crate::allocator::empty_model(),
    {
        EntitiesRes { alloc: Allocator::default() }
    }
}

impl EntitiesRes {
    /// The underlying allocator is well-formed.
    pub closed spec fn wf(self) -> bool {
        self.alloc.wf()
    }

    /// Whether the next creation can proceed without running out of
    /// indices or generations; the runtime tests this before creating.
    pub fn can_create(&self) -> (r: bool)
        requires
            self.wf(),
        ensures
            r == ((self@.cache.len() == 0 ==> self@.max_id < MAX_INDEX) && (self@.cache.len() > 0
                ==> stored_gen(self@, self@.cache.last()) >= 1 - i32::MAX)),
    {
        self.alloc.can_allocate()
    }

    /// Creates a new entity atomically. This will be persistent as soon as
    /// the world is maintained.
    pub fn create(&mut self) -> (r: Entity)
        requires
            old(self).wf(),
            old(self)@.cache.len() == 0 ==> old(self)@.max_id < MAX_INDEX,
            old(self)@.cache.len() > 0 ==> stored_gen(old(self)@, old(self)@.cache.last()) >= 1
                - i32::MAX,
        ensures
            final(self).wf(),
            final(self)@ == spec_allocate_atomic(old(self)@).0,
            r@ == spec_allocate_atomic(old(self)@).1,
            spec_is_alive(final(self)@, r@),
    {
        self.alloc.allocate_atomic()
    }

    /// Creates `num` new entities atomically, in one batch: the lazy
    /// creation iterator, taken `num` entities far. They will be persistent
    /// as soon as the world is maintained.
    pub fn create_iter(&mut self, num: usize) -> (r: Vec<Entity>)
        requires
            old(self).wf(),
            can_create_many(old(self)@, num as nat),
        ensures
            final(self).wf(),
            final(self)@ == spec_create_many(old(self)@, num as nat).0,
            r@.map_values(|e: Entity| e@) == spec_create_many(old(self)@, num as nat).1,
    {
        let ghost pre = self@;
        let mut r: Vec<Entity> = Vec::new();
        let mut k: usize = 0;
        while k < num
            invariant
                k <= num,
                self.wf(),
                r@.len() == k,
                can_create_many(self@, (num - k) as nat),
                spec_create_many(pre, num as nat).0 == spec_create_many(
                    self@,
                    (num - k) as nat,
                ).0,
                spec_create_many(pre, num as nat).1 == r@.map_values(|e: Entity| e@)
                    + spec_create_many(self@, (num - k) as nat).1,
            decreases num - k,
        {
            let ghost cur = self@;
            let ghost rprev = r@;
            let e = self.create();
            r.push(e);
            k = k + 1;
            proof {
                assert(spec_create_many(cur, (num - k + 1) as nat).1 == seq![e@]
                    + spec_create_many(self@, (num - k) as nat).1);
                assert(r@.map_values(|e2: Entity| e2@) =~= rprev.map_values(|e2: Entity| e2@)
                    + seq![e@]);
                assert(spec_create_many(pre, num as nat).1 =~= r@.map_values(|e2: Entity| e2@)
                    + spec_create_many(self@, (num - k) as nat).1);
            }
        }
        r
    }

    /// Similar to `create`, but returns a builder which finishes or cancels
    /// the construction of the entity.
    pub fn build_entity(&mut self) -> (r: EntityResBuilder)
        requires
            old(self).wf(),
            old(self)@.cache.len() == 0 ==> old(self)@.max_id < MAX_INDEX,
            old(self)@.cache.len() > 0 ==> stored_gen(old(self)@, old(self)@.cache.last()) >= 1
                - i32::MAX,
        ensures
            final(self).wf(),
            final(self)@ == spec_allocate_atomic(old(self)@).0,
            r.spec_entity()@ == spec_allocate_atomic(old(self)@).1,
            spec_is_alive(final(self)@, r.spec_entity()@),
            !r.built(),
    {
        let entity = self.create();
        EntityResBuilder { entity, built: false }
    }

    /// Deletes an entity atomically. It stays visible as alive until the
    /// next maintenance; the deletion fails with `WrongGeneration` exactly
    /// when the entity is not alive.
    pub fn delete(&mut self, e: Entity) -> (r: Result<(), WrongGeneration>)
        requires
            old(self).wf(),
            spec_is_alive(old(self)@, e@) ==> e@.0 < MAX_INDEX,
            !spec_is_alive(old(self)@, e@) ==> (e@.0 as int) < old(self)@.gens.len(),
        ensures
            final(self).wf(),
            r is Ok <==> spec_is_alive(old(self)@, e@),
            spec_is_alive(old(self)@, e@) ==> final(self)@ == (AllocModel {
                killed: old(self)@.killed.insert(e@.0),
                ..old(self)@
            }),
            !spec_is_alive(old(self)@, e@) ==> final(self)@ == old(self)@ && (r matches Err(w)
                && w.action@ == "delete"@ && w.actual_gen@ == old(self)@.gens[e@.0 as int]
                && w.entity == e),
    {
        self.alloc.kill_atomic(e)
    }

    /// Returns an entity with a given `id`. There's no guarantee for
    /// validity, meaning the entity could be not alive.
    pub fn entity(&self, id: Index) -> (r: Entity)
        requires
            self.wf(),
        ensures
            r@ == (id, crate::allocator::effective_gen(self@, id)),
    {
        self.alloc.entity(id)
    }

    /// Returns `true` if the specified entity is alive.
    pub fn is_alive(&self, e: Entity) -> (r: bool)
        requires
            self.wf(),
        ensures
            r == spec_is_alive(self@, e@),
    {
        self.alloc.is_alive(e)
    }

    /// Kills a list of entities immediately; the world's maintenance uses
    /// this for entities whose deletion was deferred.
    pub fn kill(&mut self, delete: &Vec<Entity>) -> (r: Result<(), WrongGeneration>)
        requires
            old(self).wf(),
            kill_reachable_ok(old(self)@, delete@.map_values(|e: Entity| e@)),
        ensures
            final(self).wf(),
            ({
                let s = delete@.map_values(|e: Entity| e@);
                &&& (r is Ok <==> kill_prefix_ok(old(self)@, s, s.len() as int))
                &&& (r is Ok ==> final(self)@ == (AllocModel {
                    cache: old(self)@.cache + del_ids(s),
                    ..spec_kill_prefix(old(self)@, s, s.len() as int)
                }))
            }),
    {
        self.alloc.kill(delete)
    }

    /// Maintains the allocated entities: promotes atomically created ones,
    /// finalizes atomically requested deletions, and returns the deleted
    /// entities. Driven by the world's `maintain`.
    pub fn merge(&mut self) -> (deleted: Vec<Entity>)
        requires
            old(self).wf(),
            forall|i: Index| #[trigger]
                old(self)@.killed.contains(i) ==> old(self)@.raised.contains(i) || stored_gen(
                    old(self)@,
                    i,
                ) > 0,
        ensures
            final(self).wf(),
            merge_rel(old(self)@, final(self)@, deleted@.map_values(|e: Entity| e@)),
    {
        self.alloc.merge()
    }
}

/// An entity builder from `EntitiesRes`: a scoped construction of one
/// entity. `build` finishes it; `cancel` compensates an abandoned
/// construction by deleting the entity atomically, so a failed build leaks
/// no identity once the world is maintained.
#[must_use]
pub struct EntityResBuilder {
    /// The entity being built.
    pub entity: Entity,
    pub(crate) built: bool,
}

impl EntityResBuilder {
    /// Whether the construction was finished.
    pub closed spec fn built(self) -> bool {
        self.built
    }

    /// The entity under construction.
    pub closed spec fn spec_entity(self) -> Entity {
        self.entity
    }

    /// Finishes the building and returns the entity.
    pub fn build(self) -> (r: Entity)
        ensures
            r == self.spec_entity(),
    {
        let EntityResBuilder { entity, built: _ } = self;
        entity
    }

    /// Abandons the construction: the entity is deleted atomically, so it
    /// is gone after the next maintenance.
    pub fn cancel(self, entities: &mut EntitiesRes) -> (r: Result<(), WrongGeneration>)
        requires
            old(entities).wf(),
            spec_is_alive(old(entities)@, self.spec_entity()@) ==> self.spec_entity()@.0 < MAX_INDEX,
            !spec_is_alive(old(entities)@, self.spec_entity()@) ==> (self.spec_entity()@.0
                as int) < old(entities)@.gens.len(),
        ensures
            final(entities).wf(),
            r is Ok <==> spec_is_alive(old(entities)@, self.spec_entity()@),
            spec_is_alive(old(entities)@, self.spec_entity()@) ==> final(entities)@ == (
            AllocModel {
                killed: old(entities)@.killed.insert(self.spec_entity()@.0),
                ..old(entities)@
            }),
    {
        entities.delete(self.entity)
    }
}

} // verus!
