use vstd::prelude::*;

use hibitset::{AtomicBitSet, BitSet};

use crate::bits::{
    atomic_bit_set_add_atomic, atomic_bit_set_clear, atomic_bit_set_collect,
    atomic_bit_set_contains, atomic_bit_set_elems, atomic_bit_set_new, atomic_bit_set_remove,
    bit_set_add, bit_set_elems, bit_set_new, bit_set_remove, MAX_INDEX,
};
use crate::cache::EntityCache;
use crate::entity::{Entity, Generation, Index};
use crate::error::WrongGeneration;

verus! {

/// Mathematical state of the allocator: the generation table, the three
/// index sets, the free cache and the next never-issued index.
#[verifier::ext_equal]
pub struct AllocModel {
    /// Generation stored for each slot that ever got one.
    pub gens: Seq<int>,
    /// Synchronously-known live indices.
    pub alive: Set<Index>,
    /// Atomically-created indices pending promotion.
    pub raised: Set<Index>,
    /// Atomically-requested deletions pending finalization.
    pub killed: Set<Index>,
    /// Free indices awaiting reuse, most recent last.
    pub cache: Seq<Index>,
    /// The next index that was never issued before.
    pub max_id: int,
}

/// The generation stored at slot `i`; slots beyond the table hold the
/// never-used sentinel `0`.
pub open spec fn stored_gen(m: AllocModel, i: Index) -> int {
    if i < m.gens.len() {
        m.gens[i as int]
    } else {
        0
    }
}

/// The generation a query observes at slot `i`: a slot with no entry yet
/// reads as `1`, a dead slot pending promotion reads as its raised value.
pub open spec fn effective_gen(m: AllocModel, i: Index) -> int {
    if i < m.gens.len() {
        if m.gens[i as int] <= 0 && m.raised.contains(i) {
            1 - m.gens[i as int]
        } else {
            m.gens[i as int]
        }
    } else {
        1
    }
}

/// An entity token is alive exactly when its generation equals the one the
/// allocator observes at its slot.
pub open spec fn spec_is_alive(m: AllocModel, e: (Index, int)) -> bool {
    e.1 == effective_gen(m, e.0)
}

/// The generation slot `i` takes once the pending promotion for `raised`
/// is applied.
pub open spec fn promoted_gen(m: AllocModel, i: Index) -> int {
    if m.raised.contains(i) {
        1 - stored_gen(m, i)
    } else {
        stored_gen(m, i)
    }
}

/// Well-formedness of the allocator state.
pub open spec fn wf_model(m: AllocModel) -> bool {
    &&& m.gens.len() <= m.max_id <= MAX_INDEX
    &&& forall|k: int|
        0 <= k < m.gens.len() ==> -(i32::MAX as int) <= #[trigger] m.gens[k] <= i32::MAX
    &&& forall|i: Index| #[trigger] m.alive.contains(i) ==> i < m.max_id && stored_gen(m, i) > 0
    &&& forall|i: Index| #[trigger]
        m.raised.contains(i) ==> i < m.max_id && 1 - i32::MAX <= stored_gen(m, i) <= 0
    &&& forall|i: Index| #[trigger] m.killed.contains(i) ==> i < MAX_INDEX
    &&& forall|k: int|
        0 <= k < m.cache.len() ==> {
            let i = #[trigger] m.cache[k];
            &&& i < m.max_id
            &&& stored_gen(m, i) <= 0
            &&& !m.raised.contains(i)
            &&& !m.alive.contains(i)
        }
    &&& forall|k1: int, k2: int| 0 <= k1 < k2 < m.cache.len() ==> m.cache[k1] != m.cache[k2]
}

/// `gens` padded with the never-used sentinel up to length `n`.
pub open spec fn grown(gens: Seq<int>, n: int) -> Seq<int> {
    if gens.len() >= n {
        gens
    } else {
        gens + Seq::new((n - gens.len()) as nat, |k: int| 0)
    }
}

/// The index the next allocation picks, with the cache and `max_id` it
/// leaves behind: the most recently freed index if one is cached, else the
/// next never-issued one.
pub open spec fn spec_pick(m: AllocModel) -> (Index, Seq<Index>, int) {
    if m.cache.len() > 0 {
        (m.cache.last(), m.cache.drop_last(), m.max_id)
    } else {
        (m.max_id as Index, m.cache, m.max_id + 1)
    }
}

/// The synchronous allocation: pick an index, grow the generation table to
/// cover it, raise its slot, mark it alive. Returns the state after and the
/// entity issued.
pub open spec fn spec_allocate(m: AllocModel) -> (AllocModel, (Index, int)) {
    let (i, cache1, max1) = spec_pick(m);
    let g = 1 - stored_gen(m, i);
    let post = AllocModel {
        gens: grown(m.gens, i as int + 1).update(i as int, g),
        alive: m.alive.insert(i),
        cache: cache1,
        max_id: max1,
        ..m
    };
    (post, (i, g))
}

/// The atomic allocation: pick an index, register it in `raised`, and
/// project the generation the merge will store, without touching the table.
pub open spec fn spec_allocate_atomic(m: AllocModel) -> (AllocModel, (Index, int)) {
    let (i, cache1, max1) = spec_pick(m);
    let g = if stored_gen(m, i) > 0 {
        stored_gen(m, i)
    } else {
        1 - stored_gen(m, i)
    };
    let post = AllocModel { raised: m.raised.insert(i), cache: cache1, max_id: max1, ..m };
    (post, (i, g))
}

/// The identifier part of a deleted-entities sequence.
pub open spec fn del_ids(del: Seq<(Index, int)>) -> Seq<Index> {
    del.map_values(|d: (Index, int)| d.0)
}

/// The generation slot `i` holds after a merge: the pending promotion is
/// applied first, then slots registered in `killed` die.
pub open spec fn merged_gen(pre: AllocModel, i: Index) -> int {
    if pre.killed.contains(i) {
        -promoted_gen(pre, i)
    } else {
        promoted_gen(pre, i)
    }
}

/// How a merge relates the state before, the state after and the list of
/// deleted entities it returns: every raised index is promoted into the
/// table and into `alive`, then every killed index leaves `alive`, dies in
/// the table and is reported, in ascending index order, with the generation
/// it had after promotion; the freed indices go to the cache, and both
/// pending sets come out empty.
pub open spec fn merge_rel(pre: AllocModel, post: AllocModel, del: Seq<(Index, int)>) -> bool {
    &&& pre.gens.len() <= post.gens.len() <= pre.max_id
    &&& (post.gens.len() == pre.gens.len() || pre.raised.contains(
        ((post.gens.len() - 1) as int) as Index,
    ))
    &&& forall|i: Index| #[trigger] pre.raised.contains(i) ==> i < post.gens.len()
    &&& forall|k: int|
        0 <= k < post.gens.len() ==> #[trigger] post.gens[k] == merged_gen(pre, k as Index)
    &&& post.alive == pre.alive.union(pre.raised).difference(pre.killed)
    &&& post.raised == Set::<Index>::empty()
    &&& post.killed == Set::<Index>::empty()
    &&& post.max_id == pre.max_id
    &&& forall|j: int, k: int| 0 <= j < k < del.len() ==> del[j].0 < del[k].0
    &&& forall|j: int|
        0 <= j < del.len() ==> pre.killed.contains(#[trigger] del[j].0) && del[j].1
            == promoted_gen(pre, del[j].0)
    &&& forall|i: Index| #[trigger] pre.killed.contains(i) ==> del_ids(del).contains(i)
    &&& post.cache == pre.cache + del_ids(del)
}

/// The successful synchronous kill of one entity: its slot leaves `alive`,
/// the table grows to cover it, a pending promotion is applied, and the
/// slot dies.
pub open spec fn spec_kill_one(m: AllocModel, e: (Index, int)) -> AllocModel {
    let g2 = grown(m.gens, e.0 as int + 1);
    let promoted = if m.raised.contains(e.0) {
        1 - g2[e.0 as int]
    } else {
        g2[e.0 as int]
    };
    AllocModel {
        gens: g2.update(e.0 as int, -promoted),
        alive: m.alive.remove(e.0),
        raised: m.raised.remove(e.0),
        ..m
    }
}

/// The state after killing the first `k` entities of `s`, assuming each
/// was alive when its turn came.
pub open spec fn spec_kill_prefix(m: AllocModel, s: Seq<(Index, int)>, k: int) -> AllocModel
    decreases k,
{
    if k <= 0 {
        m
    } else {
        spec_kill_one(spec_kill_prefix(m, s, k - 1), s[k - 1])
    }
}

/// Each of the first `k` entities of `s` is alive when its turn comes.
pub open spec fn kill_prefix_ok(m: AllocModel, s: Seq<(Index, int)>, k: int) -> bool {
    forall|j: int| 0 <= j < k ==> spec_is_alive(spec_kill_prefix(m, s, j), #[trigger] s[j])
}

/// What a synchronous kill needs of every entity it can reach, so that no
/// step panics: one that is alive when its turn comes must die through a
/// promoted slot or through a stored positive generation, and a mismatch
/// must have a stored slot to report.
pub open spec fn kill_reachable_ok(m: AllocModel, s: Seq<(Index, int)>) -> bool {
    forall|j: int|
        0 <= j < s.len() && kill_prefix_ok(m, s, j) ==> {
            let mj = spec_kill_prefix(m, s, j);
            if spec_is_alive(mj, s[j]) {
                mj.raised.contains((#[trigger] s[j]).0) || (s[j].0 < mj.gens.len() && s[j].1 > 0)
            } else {
                s[j].0 < mj.gens.len()
            }
        }
}

/// The fresh, empty allocator state.
pub open spec fn empty_model() -> AllocModel {
    AllocModel {
        gens: Seq::empty(),
        alive: Set::empty(),
        raised: Set::empty(),
        killed: Set::empty(),
        cache: Seq::empty(),
        max_id: 0,
    }
}

/// Internally used structure for `Entity` allocation.
pub struct Allocator {
    generations: Vec<Generation>,
    alive: BitSet,
    raised: AtomicBitSet,
    killed: AtomicBitSet,
    cache: EntityCache,
    max_id: usize,
}

impl View for Allocator {
    type V = AllocModel;

    closed spec fn view(&self) -> AllocModel {
        AllocModel {
            gens: self.generations@.map_values(|g: Generation| g@),
            alive: bit_set_elems(self.alive),
            raised: atomic_bit_set_elems(self.raised),
            killed: atomic_bit_set_elems(self.killed),
            cache: self.cache@,
            max_id: self.max_id as int,
        }
    }
}

impl Default for Allocator {
    /// A fresh allocator: nothing issued, nothing pending, nothing cached.
    fn default() -> (r: Allocator)
        ensures
            r.wf(),
            r@ == empty_model(),
    {
        let r = Allocator {
            generations: Vec::new(),
            alive: bit_set_new(),
            raised: atomic_bit_set_new(),
            killed: atomic_bit_set_new(),
            cache: EntityCache::new(),
            max_id: 0,
        };
        proof {
            assert(r@ =~= empty_model());
        }
        r
    }
}

impl Allocator {
    /// The allocator's representation is well-formed.
    pub closed spec fn wf(self) -> bool {
        &&& self.cache.wf()
        &&& wf_model(self@)
    }

    /// Return `true` if the entity is alive.
    pub fn is_alive(&self, e: Entity) -> (r: bool)
        requires
            self.wf(),
        ensures
            r == spec_is_alive(self@, e@),
    {
        let id = e.id();
        let g = if (id as usize) < self.generations.len() {
            let g = self.generations[id as usize];
            proof {
                assert(g@ == stored_gen(self@, id));
            }
            if !g.is_alive() && atomic_bit_set_contains(&self.raised, id) {
                proof {
                    assert(self@.raised.contains(id));
                    assert(1 - i32::MAX <= stored_gen(self@, id) <= 0);
                }
                g.raised()
            } else {
                g
            }
        } else {
            Generation::new(1)
        };
        e.gen().id() == g.id()
    }

    /// Returns the current alive entity with the given `Index`; makes no
    /// liveness claim.
    pub fn entity(&self, id: Index) -> (r: Entity)
        requires
            self.wf(),
        ensures
            r@ == (id, effective_gen(self@, id)),
    {
        let g = if (id as usize) < self.generations.len() {
            let g = self.generations[id as usize];
            proof {
                assert(g@ == stored_gen(self@, id));
            }
            if !g.is_alive() && atomic_bit_set_contains(&self.raised, id) {
                proof {
                    assert(self@.raised.contains(id));
                    assert(1 - i32::MAX <= stored_gen(self@, id) <= 0);
                }
                g.raised()
            } else {
                g
            }
        } else {
            Generation::new(1)
        };
        Entity::new(id, g)
    }

    /// The mismatch error for a failed deletion of `e`.
    fn del_err(&self, e: Entity) -> (r: Result<(), WrongGeneration>)
        requires
            (e@.0 as int) < self@.gens.len(),
        ensures
            (r matches Err(w) && w.action@ == "delete"@ && w.actual_gen@ == self@.gens[e@.0 as int]
                && w.entity == e),
    {
        Err(WrongGeneration { action: "delete", actual_gen: self.generations[e.id() as usize], entity: e })
    }

    /// Registers `e` for deletion at the next merge. Fails with
    /// `WrongGeneration` exactly when `e` is not alive; the entity stays
    /// visible as alive until the merge.
    pub fn kill_atomic(&mut self, e: Entity) -> (r: Result<(), WrongGeneration>)
        requires
            old(self).wf(),
            spec_is_alive(old(self)@, e@) ==> e@.0 < MAX_INDEX,
            !spec_is_alive(old(self)@, e@) ==> (e@.0 as int) < old(self)@.gens.len(),
        ensures
            final(self).wf(),
            r is Ok <==> spec_is_alive(old(self)@, e@),
            spec_is_alive(old(self)@, e@) ==> final(self)@ == (AllocModel {
                killed: old(self)@.killed.insert(e@.0),
                ..old(self)@
            }),
            !spec_is_alive(old(self)@, e@) ==> final(self)@ == old(self)@ && (r matches Err(w)
                && w.action@ == "delete"@ && w.actual_gen@ == old(self)@.gens[e@.0 as int]
                && w.entity == e),
    {
        if !self.is_alive(e) {
            return self.del_err(e);
        }
        proof {
            if e@.0 >= self@.gens.len() {
                assert(effective_gen(self@, e@.0) == 1);
            }
        }
        atomic_bit_set_add_atomic(&mut self.killed, e.id());
        proof {
            assert(self@ =~= AllocModel { killed: old(self)@.killed.insert(e@.0), ..old(self)@ });
        }
        Ok(())
    }

    /// Whether the next allocation can proceed without running out of
    /// indices or generations: either a freed index whose slot can still be
    /// raised is cached, or a never-issued index is left. The runtime tests
    /// this before allocating, since past these machine limits the
    /// allocation panics.
    pub fn can_allocate(&self) -> (r: bool)
        requires
            self.wf(),
        ensures
            r == ((self@.cache.len() == 0 ==> self@.max_id < MAX_INDEX) && (self@.cache.len() > 0
                ==> stored_gen(self@, self@.cache.last()) >= 1 - i32::MAX)),
    {
        match self.cache.last() {
            None => self.max_id < MAX_INDEX as usize,
            Some(i) => {
                if (i as usize) < self.generations.len() {
                    let g = self.generations[i as usize];
                    proof {
                        assert(g@ == stored_gen(self@, i));
                    }
                    g.id() >= 1 - i32::MAX
                } else {
                    true
                }
            },
        }
    }

    /// Picks the index for the next allocation: the most recently freed one
    /// if the cache holds any, else the next never-issued one.
    fn pick_index(&mut self) -> (id: Index)
        requires
            old(self).wf(),
            old(self)@.cache.len() == 0 ==> old(self)@.max_id < MAX_INDEX,
        ensures
            final(self).wf(),
            (id, final(self)@.cache, final(self)@.max_id) == spec_pick(old(self)@),
            final(self)@ == (AllocModel {
                cache: final(self)@.cache,
                max_id: final(self)@.max_id,
                ..old(self)@
            }),
            id < final(self)@.max_id,
            stored_gen(old(self)@, id) <= 0,
            !old(self)@.raised.contains(id),
            !old(self)@.alive.contains(id),
            !final(self)@.cache.contains(id),
    {
        let id: Index = match self.cache.pop_atomic() {
            Some(x) => x,
            None => {
                match atomic_add1(&mut self.max_id) {
                    Some(id) => id as Index,
                    None => vstd::pervasive::unreached(),
                }
            },
        };
        proof {
            let m0 = old(self)@;
            if m0.cache.len() > 0 {
                assert(m0.cache[m0.cache.len() - 1] == m0.cache.last());
                assert(forall|k: int|
                    0 <= k < m0.cache.len() - 1 ==> m0.cache.drop_last()[k] == m0.cache[k]);
                if self@.cache.contains(id) {
                    let k = choose|k: int| 0 <= k < self@.cache.len() && self@.cache[k] == id;
                    assert(m0.cache[k] == m0.cache[m0.cache.len() - 1]);
                }
            } else {
                assert(stored_gen(m0, id) == 0);
            }
            assert(self@ =~= (AllocModel {
                cache: self@.cache,
                max_id: self@.max_id,
                ..old(self)@
            }));
        }
        id
    }

    /// Grows the generation table with never-used sentinels until it covers
    /// slot `id`.
    fn grow_gens(&mut self, id: Index)
        ensures
            final(self)@ == (AllocModel {
                gens: grown(old(self)@.gens, id as int + 1),
                ..old(self)@
            }),
            final(self).cache == old(self).cache,
    {
        while self.generations.len() <= id as usize
            invariant
                old(self)@.gens.len() <= self.generations@.len(),
                self.generations@.len() <= vstd::math::max(
                    old(self)@.gens.len() as int,
                    id as int + 1,
                ),
                forall|k: int|
                    0 <= k < old(self)@.gens.len() ==> self.generations@[k] == old(
                        self,
                    ).generations@[k],
                forall|k: int|
                    old(self)@.gens.len() <= k < self.generations@.len() ==> self.generations@[k]@
                        == 0,
                self@ == (AllocModel { gens: self@.gens, ..old(self)@ }),
                self.cache == old(self).cache,
            decreases id as int + 1 - self.generations@.len(),
        {
            self.generations.push(Generation::new(0));
            proof {
                assert(self@ =~= (AllocModel { gens: self@.gens, ..old(self)@ }));
            }
        }
        proof {
            assert(self@.gens =~= grown(old(self)@.gens, id as int + 1));
            assert(self@ =~= (AllocModel {
                gens: grown(old(self)@.gens, id as int + 1),
                ..old(self)@
            }));
        }
    }

    /// Allocate a new entity synchronously: it is alive and visible at once.
    pub fn allocate(&mut self) -> (r: Entity)
        requires
            old(self).wf(),
            old(self)@.cache.len() == 0 ==> old(self)@.max_id < MAX_INDEX,
            old(self)@.cache.len() > 0 ==> stored_gen(old(self)@, old(self)@.cache.last()) >= 1
                - i32::MAX,
        ensures
            final(self).wf(),
            final(self)@ == spec_allocate(old(self)@).0,
            r@ == spec_allocate(old(self)@).1,
            spec_is_alive(final(self)@, r@),
    {
        let ghost m0 = old(self)@;
        let id = self.pick_index();
        let ghost m1 = self@;
        self.grow_gens(id);
        proof {
            assert(m1.gens == m0.gens);
            assert(self@.gens == grown(m0.gens, id as int + 1));
            assert(self@.gens.len() >= id as int + 1);
            assert(self@.gens[id as int] == stored_gen(m0, id));
        }
        bit_set_add(&mut self.alive, id);
        let g = self.generations[id as usize];
        proof {
            assert(g@ == self@.gens[id as int]);
            assert(g@ == stored_gen(m0, id));
        }
        let g = g.raised();
        set_gen(&mut self.generations, id as usize, g);
        proof {
            assert(self@.gens =~= grown(m0.gens, id as int + 1).update(id as int, 1 - stored_gen(
                m0,
                id,
            )));
            assert(self@ =~= spec_allocate(m0).0);
            assert(wf_model(self@)) by {
                let m = self@;
                assert(forall|i: Index| #[trigger]
                    m.raised.contains(i) ==> stored_gen(m, i) == stored_gen(m0, i));
                assert(forall|k: int|
                    0 <= k < m.cache.len() ==> stored_gen(m, #[trigger] m.cache[k]) == stored_gen(
                        m0,
                        m.cache[k],
                    ));
            }
        }
        Entity::new(id, g)
    }

    /// Allocate a new entity atomically: it is registered in `raised` and
    /// observed alive at once, but the generation table is only updated at
    /// the next merge.
    pub fn allocate_atomic(&mut self) -> (r: Entity)
        requires
            old(self).wf(),
            old(self)@.cache.len() == 0 ==> old(self)@.max_id < MAX_INDEX,
            old(self)@.cache.len() > 0 ==> stored_gen(old(self)@, old(self)@.cache.last()) >= 1
                - i32::MAX,
        ensures
            final(self).wf(),
            final(self)@ == spec_allocate_atomic(old(self)@).0,
            r@ == spec_allocate_atomic(old(self)@).1,
            spec_is_alive(final(self)@, r@),
    {
        let ghost m0 = old(self)@;
        let id = self.pick_index();
        atomic_bit_set_add_atomic(&mut self.raised, id);
        let gen = if (id as usize) < self.generations.len() {
            let g = self.generations[id as usize];
            proof {
                assert(g@ == stored_gen(m0, id));
            }
            if g.is_alive() {
                g
            } else {
                g.raised()
            }
        } else {
            Generation::new(1)
        };
        proof {
            assert(self@ =~= spec_allocate_atomic(m0).0);
            assert(wf_model(self@)) by {
                let m = self@;
                assert(forall|i: Index| #[trigger]
                    m.raised.contains(i) ==> stored_gen(m, i) == stored_gen(m0, i));
            }
        }
        Entity::new(id, gen)
    }

    /// Kills a list of entities immediately. Fails with `WrongGeneration`
    /// at the first entity that is not alive when its turn comes; the
    /// entities before it stay killed, and nothing reaches the free cache.
    /// Kills a list of entities immediately. Fails with `WrongGeneration`
    /// at the first entity that is not alive when its turn comes; the
    /// entities before it stay killed, and nothing reaches the free cache.
    #[verifier::rlimit(100)]
    #[verifier::spinoff_prover]
    pub fn kill(&mut self, delete: &Vec<Entity>) -> (r: Result<(), WrongGeneration>)
        requires
            old(self).wf(),
            kill_reachable_ok(old(self)@, delete@.map_values(|e: Entity| e@)),
        ensures
            final(self).wf(),
            ({
                let s = delete@.map_values(|e: Entity| e@);
                &&& (r is Ok <==> kill_prefix_ok(old(self)@, s, s.len() as int))
                &&& (r is Ok ==> final(self)@ == (AllocModel {
                    cache: old(self)@.cache + del_ids(s),
                    ..spec_kill_prefix(old(self)@, s, s.len() as int)
                }))
                &&& (r matches Err(w) ==> (exists|k: int|
                    {
                        let mk = spec_kill_prefix(old(self)@, s, k);
                        &&& 0 <= k < s.len()
                        &&& #[trigger] kill_prefix_ok(old(self)@, s, k)
                        &&& !spec_is_alive(mk, s[k])
                        &&& final(self)@ == mk
                        &&& w.entity@ == s[k]
                        &&& w.action@ == "delete"@
                        &&& w.actual_gen@ == mk.gens[s[k].0 as int]
                    }))
            }),
    {
        let ghost s = delete@.map_values(|e: Entity| e@);
        let ghost pre = old(self)@;
        let mut ids: Vec<Index> = Vec::new();
        let mut k: usize = 0;
        while k < delete.len()
            invariant
                old(self).wf(),
                kill_reachable_ok(pre, s),
                pre == old(self)@,
                s == delete@.map_values(|e: Entity| e@),
                s.len() == delete@.len(),
                k <= s.len(),
                kill_prefix_ok(pre, s, k as int),
                self@ == spec_kill_prefix(pre, s, k as int),
                self.cache == old(self).cache,
                ids@ == del_ids(s.take(k as int)),
            decreases s.len() - k,
        {
            let e = delete[k];
            let ghost cur = self@;
            proof {
                assert(e@ == s[k as int]);
                lemma_kill_prefix_facts(pre, s, k as int);
                assert(self.wf());
            }
            if !self.is_alive(e) {
                proof {
                    assert(s[k as int].0 < cur.gens.len());
                    assert(!kill_prefix_ok(pre, s, s.len() as int));
                }
                let r = self.del_err(e);
                proof {
                    assert(kill_prefix_ok(pre, s, k as int) && !spec_is_alive(
                        spec_kill_prefix(pre, s, k as int),
                        s[k as int],
                    ) && self@ == spec_kill_prefix(pre, s, k as int));
                }
                return r;
            }
            proof {
                assert(spec_is_alive(cur, s[k as int]));
                assert(cur.raised.contains(e@.0) || (e@.0 < cur.gens.len() && e@.1 > 0));
                if !cur.raised.contains(e@.0) {
                    assert(stored_gen(cur, e@.0) == e@.1);
                }
                assert(e@.0 < cur.max_id);
            }
            bit_set_remove(&mut self.alive, e.id());
            self.grow_gens(e.id());
            let was_raised = atomic_bit_set_remove(&mut self.raised, e.id());
            proof {
                assert(self@.gens == grown(cur.gens, e@.0 as int + 1));
                assert(self@.gens[e@.0 as int] == stored_gen(cur, e@.0));
            }
            let g = self.generations[e.id() as usize];
            let g2 = if was_raised {
                g.raised()
            } else {
                g
            };
            let mut g3 = g2;
            g3.die();
            set_gen(&mut self.generations, e.id() as usize, g3);
            ids.push(e.id());
            k = k + 1;
            proof {
                assert(self@.gens =~= grown(cur.gens, e@.0 as int + 1).update(
                    e@.0 as int,
                    g3@,
                ));
                assert(self@ =~= spec_kill_one(cur, s[k as int - 1]));
                assert(self@ == spec_kill_prefix(pre, s, k as int));
                assert(s.take(k as int) =~= s.take(k as int - 1).push(s[k as int - 1]));
                assert(ids@ =~= del_ids(s.take(k as int)));
            }
        }
        proof {
            assert(s.take(s.len() as int) =~= s);
            lemma_kill_prefix_facts(pre, s, s.len() as int);
            assert(self.cache.wf());
        }
        self.cache.extend(&ids);
        proof {
            let fin = spec_kill_prefix(pre, s, s.len() as int);
            assert(self@ =~= (AllocModel { cache: pre.cache + del_ids(s), ..fin }));
            assert(self.cache.wf());
            assert(wf_model(self@)) by {
                let m = self@;
                assert forall|i2: Index| stored_gen(m, i2) == stored_gen(fin, i2) by {}
                assert forall|k2: int| 0 <= k2 < m.cache.len() implies {
                    let i2 = #[trigger] m.cache[k2];
                    &&& i2 < m.max_id
                    &&& stored_gen(m, i2) <= 0
                    &&& !m.raised.contains(i2)
                    &&& !m.alive.contains(i2)
                } by {
                    if k2 < fin.cache.len() {
                        assert(fin.cache[k2] == m.cache[k2]);
                    } else {
                        let j = k2 - fin.cache.len();
                        assert(del_ids(s)[j] == s[j].0);
                        assert(m.cache[k2] == s[j].0);
                    }
                }
                assert forall|k1: int, k2: int|
                    0 <= k1 < k2 < m.cache.len() implies m.cache[k1] != m.cache[k2] by {
                    if k2 >= fin.cache.len() {
                        let j2 = k2 - fin.cache.len();
                        assert(m.cache[k2] == s[j2].0);
                        assert(!fin.cache.contains(s[j2].0));
                        if k1 >= fin.cache.len() {
                            let j1 = k1 - fin.cache.len();
                            assert(m.cache[k1] == s[j1].0);
                        } else {
                            assert(fin.cache[k1] == m.cache[k1]);
                            assert(fin.cache.contains(fin.cache[k1]));
                        }
                    }
                }
            }
        }
        Ok(())
    }

    /// Maintains the allocated entities: promotes every atomically created
    /// index, finalizes every atomically requested deletion, and returns
    /// the list of deleted entities in ascending index order.
    #[verifier::spinoff_prover]
    pub fn merge(&mut self) -> (deleted: Vec<Entity>)
        requires
            old(self).wf(),
            forall|i: Index| #[trigger]
                old(self)@.killed.contains(i) ==> old(self)@.raised.contains(i) || stored_gen(
                    old(self)@,
                    i,
                ) > 0,
        ensures
            final(self).wf(),
            merge_rel(old(self)@, final(self)@, deleted@.map_values(|e: Entity| e@)),
    {
        let ghost pre = self@;
        let raised_ids = atomic_bit_set_collect(&self.raised);
        let ghost rs = raised_ids@;
        let mut t: usize = 0;
        while t < raised_ids.len()
            invariant
                old(self).wf(),
                t <= rs.len(),
                raised_ids@ == rs,
                forall|j: int, k: int| 0 <= j < k < rs.len() ==> rs[j] < rs[k],
                forall|k: int| 0 <= k < rs.len() ==> pre.raised.contains(#[trigger] rs[k]),
                forall|i: Index| #[trigger] pre.raised.contains(i) ==> rs.contains(i),
                pre == old(self)@,
                self@.raised == pre.raised,
                self@.killed == pre.killed,
                self@.cache == pre.cache,
                self@.max_id == pre.max_id,
                self.cache == old(self).cache,
                pre.gens.len() <= self@.gens.len() <= pre.max_id,
                self@.gens.len() == if t == 0 {
                    pre.gens.len() as int
                } else {
                    vstd::math::max(pre.gens.len() as int, rs[t as int - 1] + 1)
                },
                forall|j: int| 0 <= j < t ==> rs[j] < self@.gens.len(),
                forall|i: Index|
                    i < self@.gens.len() ==> #[trigger] self@.gens[i as int] == if rs.take(
                        t as int,
                    ).contains(i) {
                        1 - stored_gen(pre, i)
                    } else {
                        stored_gen(pre, i)
                    },
                self@.alive == pre.alive.union(rs.take(t as int).to_set()),
            decreases rs.len() - t,
        {
            let i = raised_ids[t];
            let ghost cur = self@;
            proof {
                assert(pre.raised.contains(i));
                assert(i < pre.max_id);
                assert forall|j: int| 0 <= j < t implies rs[j] < i by {}
                if rs.take(t as int).contains(i) {
                    let j = choose|j: int| 0 <= j < t && #[trigger] rs.take(t as int)[j] == i;
                    assert(rs[j] == i);
                }
                assert(!rs.take(t as int).contains(i));
                assert(self@.gens.len() <= i + 1 || self@.gens[i as int] == stored_gen(pre, i));
            }
            self.grow_gens(i);
            proof {
                assert(self@.gens == grown(cur.gens, i as int + 1));
                assert(self@.gens[i as int] == stored_gen(cur, i as Index));
                assert(stored_gen(cur, i) == stored_gen(pre, i));
                assert(1 - i32::MAX <= stored_gen(pre, i) <= 0);
            }
            let g = self.generations[i as usize];
            let g2 = g.raised();
            set_gen(&mut self.generations, i as usize, g2);
            bit_set_add(&mut self.alive, i);
            t = t + 1;
            proof {
                assert(self@.gens =~= grown(cur.gens, i as int + 1).update(
                    i as int,
                    1 - stored_gen(pre, i),
                ));
                assert(rs.take(t as int) =~= rs.take(t as int - 1).push(i));
                lemma_take_step(rs, t as int);
                assert(self@.alive =~= pre.alive.union(rs.take(t as int).to_set()));
                assert forall|i2: Index| i2 < self@.gens.len() implies #[trigger] self@.gens[i2 as int] == if rs.take(t as int).contains(i2) {
                    1 - stored_gen(pre, i2)
                } else {
                    stored_gen(pre, i2)
                } by {
                    if i2 == i {
                        assert(rs.take(t as int).contains(i));
                    } else {
                        assert(rs.take(t as int).contains(i2) == rs.take(t as int - 1).contains(
                            i2,
                        ));
                        if i2 < cur.gens.len() {
                            assert(self@.gens[i2 as int] == cur.gens[i2 as int]);
                        } else {
                            assert(self@.gens[i2 as int] == 0);
                            assert(!rs.take(t as int - 1).contains(i2) ==> stored_gen(pre, i2)
                                == 0);
                            if rs.take(t as int - 1).contains(i2) {
                                let j = choose|j: int|
                                    0 <= j < t - 1 && #[trigger] rs.take(t as int - 1)[j] == i2;
                                assert(rs[j] == i2);
                                assert(rs[j] < cur.gens.len());
                            }
                        }
                    }
                }
            }
        }
        proof {
            assert(rs.take(rs.len() as int) =~= rs);
            assert(rs.to_set() =~= pre.raised) by {
                assert(forall|i: Index| #[trigger] rs.to_set().contains(i) == rs.contains(i));
            }
        }
        atomic_bit_set_clear(&mut self.raised);
        let ghost mid = self@;
        proof {
            assert(mid.alive =~= pre.alive.union(pre.raised));
            assert(forall|i: Index|
                i < mid.gens.len() ==> #[trigger] mid.gens[i as int] == promoted_gen(pre, i));
            assert(forall|i: Index| #[trigger] pre.raised.contains(i) ==> i < mid.gens.len());
        }
        let killed_ids = atomic_bit_set_collect(&self.killed);
        let ghost ks = killed_ids@;
        let mut deleted: Vec<Entity> = Vec::new();
        let mut ids: Vec<Index> = Vec::new();
        let mut t2: usize = 0;
        while t2 < killed_ids.len()
            invariant
                old(self).wf(),
                forall|i: Index| #[trigger]
                    pre.killed.contains(i) ==> pre.raised.contains(i) || stored_gen(pre, i) > 0,
                t2 <= ks.len(),
                killed_ids@ == ks,
                forall|j: int, k: int| 0 <= j < k < ks.len() ==> ks[j] < ks[k],
                forall|k: int| 0 <= k < ks.len() ==> pre.killed.contains(#[trigger] ks[k]),
                forall|i: Index| #[trigger] pre.killed.contains(i) ==> ks.contains(i),
                pre == old(self)@,
                forall|i: Index| #[trigger] pre.raised.contains(i) ==> i < mid.gens.len(),
                forall|i: Index|
                    i < mid.gens.len() ==> #[trigger] mid.gens[i as int] == promoted_gen(pre, i),
                mid.alive == pre.alive.union(pre.raised),
                pre.gens.len() <= mid.gens.len() <= pre.max_id,
                (mid.gens.len() == pre.gens.len() || pre.raised.contains(
                    ((mid.gens.len() - 1) as int) as Index,
                )),
                self@.raised == Set::<Index>::empty(),
                self@.killed == pre.killed,
                self@.cache == pre.cache,
                self@.max_id == pre.max_id,
                self.cache == old(self).cache,
                self@.gens.len() == mid.gens.len(),
                deleted@.len() == t2,
                ids@ == del_ids(deleted@.map_values(|e: Entity| e@)),
                forall|j: int|
                    0 <= j < t2 ==> (#[trigger] deleted@[j])@ == (ks[j], promoted_gen(
                        pre,
                        ks[j],
                    )),
                forall|i: Index|
                    i < self@.gens.len() ==> #[trigger] self@.gens[i as int] == if ks.take(
                        t2 as int,
                    ).contains(i) {
                        -promoted_gen(pre, i)
                    } else {
                        promoted_gen(pre, i)
                    },
                self@.alive == mid.alive.difference(ks.take(t2 as int).to_set()),
            decreases ks.len() - t2,
        {
            let i = killed_ids[t2];
            let ghost cur = self@;
            proof {
                assert(pre.killed.contains(i));
                assert(pre.raised.contains(i) || stored_gen(pre, i) > 0);
                assert(i < mid.gens.len());
                assert forall|j: int| 0 <= j < t2 implies ks[j] < i by {}
                if ks.take(t2 as int).contains(i) {
                    let j = choose|j: int| 0 <= j < t2 && #[trigger] ks.take(t2 as int)[j] == i;
                    assert(ks[j] == i);
                }
                assert(!ks.take(t2 as int).contains(i));
                assert(self@.gens[i as int] == promoted_gen(pre, i));
                assert(promoted_gen(pre, i) > 0);
            }
            bit_set_remove(&mut self.alive, i);
            let g = self.generations[i as usize];
            deleted.push(Entity::new(i, g));
            let mut g2 = g;
            g2.die();
            set_gen(&mut self.generations, i as usize, g2);
            ids.push(i);
            t2 = t2 + 1;
            proof {
                assert(self@.gens =~= cur.gens.update(i as int, -promoted_gen(pre, i)));
                assert(ks.take(t2 as int) =~= ks.take(t2 as int - 1).push(i));
                lemma_take_step(ks, t2 as int);
                assert(self@.alive =~= mid.alive.difference(ks.take(t2 as int).to_set()));
                assert((deleted@[t2 - 1])@ == (i, promoted_gen(pre, i)));
                assert forall|k: int| 0 <= k < t2 implies del_ids(
                    deleted@.map_values(|e: Entity| e@),
                )[k] == #[trigger] ids@[k] by {
                    assert(deleted@.map_values(|e: Entity| e@)[k] == (deleted@[k])@);
                }
                assert(ids@ =~= del_ids(deleted@.map_values(|e: Entity| e@)));
                assert forall|i2: Index| i2 < self@.gens.len() implies #[trigger] self@.gens[i2 as int] == if ks.take(t2 as int).contains(i2) {
                    -promoted_gen(pre, i2)
                } else {
                    promoted_gen(pre, i2)
                } by {
                    if i2 == i {
                        assert(ks.take(t2 as int).contains(i));
                    } else {
                        assert(ks.take(t2 as int).contains(i2) == ks.take(t2 as int - 1).contains(
                            i2,
                        ));
                        assert(self@.gens[i2 as int] == cur.gens[i2 as int]);
                    }
                }
            }
        }
        proof {
            assert(ks.take(ks.len() as int) =~= ks);
            assert(ks.to_set() =~= pre.killed) by {
                assert(forall|i: Index| #[trigger] ks.to_set().contains(i) == ks.contains(i));
            }
        }
        atomic_bit_set_clear(&mut self.killed);
        self.cache.extend(&ids);
        proof {
            let post = self@;
            let del = deleted@.map_values(|e: Entity| e@);
            assert(post.alive =~= pre.alive.union(pre.raised).difference(pre.killed));
            assert forall|k: int| 0 <= k < post.gens.len() implies #[trigger] post.gens[k]
                == merged_gen(pre, k as Index) by {
                let i = k as Index;
                if pre.killed.contains(i) {
                    assert(ks.contains(i));
                    assert(ks.take(ks.len() as int).contains(i));
                }
                if ks.take(ks.len() as int).contains(i) {
                    assert(pre.killed.contains(i));
                }
            }
            assert forall|i: Index| #[trigger] pre.killed.contains(i) implies del_ids(
                del,
            ).contains(i) by {
                let j = choose|j: int| 0 <= j < ks.len() && #[trigger] ks[j] == i;
                assert(del_ids(del)[j] == i);
            }
            assert(post.cache == pre.cache + del_ids(del));
            assert(merge_rel(pre, post, del));
            assert(self.cache.wf());
            assert(wf_model(post)) by {
                assert forall|i: Index| #[trigger] post.alive.contains(i) implies i < post.max_id
                    && stored_gen(post, i) > 0 by {
                    assert(pre.alive.contains(i) || pre.raised.contains(i));
                    assert(!pre.killed.contains(i));
                }
                assert forall|k: int| 0 <= k < post.cache.len() implies {
                    let i = #[trigger] post.cache[k];
                    &&& i < post.max_id
                    &&& stored_gen(post, i) <= 0
                    &&& !post.raised.contains(i)
                    &&& !post.alive.contains(i)
                } by {
                    let i = post.cache[k];
                    if k < pre.cache.len() {
                        assert(pre.cache[k] == i);
                        assert(!pre.killed.contains(i));
                        assert(stored_gen(post, i) == stored_gen(pre, i));
                    } else {
                        let j = k - pre.cache.len();
                        assert(del_ids(del)[j] == i);
                        assert(pre.killed.contains(i));
                        assert(pre.raised.contains(i) || stored_gen(pre, i) > 0);
                    }
                }
                assert forall|k1: int, k2: int| 0 <= k1 < k2 < post.cache.len() implies post.cache[k1] != post.cache[k2] by {
                    if k1 < pre.cache.len() && k2 >= pre.cache.len() {
                        let i2 = post.cache[k2];
                        let j2 = k2 - pre.cache.len();
                        assert(del_ids(del)[j2] == i2);
                        assert(pre.killed.contains(i2));
                        assert(pre.raised.contains(i2) || stored_gen(pre, i2) > 0);
                        assert(post.cache[k1] == pre.cache[k1]);
                    } else if k1 >= pre.cache.len() {
                        let j1 = k1 - pre.cache.len();
                        let j2 = k2 - pre.cache.len();
                        assert(del_ids(del)[j1] == post.cache[k1]);
                        assert(del_ids(del)[j2] == post.cache[k2]);
                        assert(del[j1].0 < del[j2].0);
                    }
                }
            }
        }
        deleted
    }
}

/// One successful synchronous kill of a live token preserves
/// well-formedness of the allocator state.
proof fn lemma_kill_one_wf(m: AllocModel, e: (Index, int))
    requires
        wf_model(m),
        spec_is_alive(m, e),
        m.raised.contains(e.0) || (e.0 < m.gens.len() && e.1 > 0),
    ensures
        wf_model(spec_kill_one(m, e)),
        forall|i2: Index| i2 != e.0 ==> stored_gen(spec_kill_one(m, e), i2) == stored_gen(m, i2),
        stored_gen(spec_kill_one(m, e), e.0) < 0,
{
    let post = spec_kill_one(m, e);
    assert(e.0 < m.max_id);
    assert forall|i2: Index| i2 != e.0 implies stored_gen(post, i2) == stored_gen(m, i2) by {
        assert(post.gens.len() >= m.gens.len());
        if i2 < m.gens.len() {
            assert(post.gens[i2 as int] == m.gens[i2 as int]);
        } else if i2 < post.gens.len() {
            assert(post.gens[i2 as int] == 0);
        }
    }
    if m.raised.contains(e.0) {
        assert(stored_gen(m, e.0) <= 0);
    }
    assert(stored_gen(post, e.0) < 0);
    assert forall|i2: Index| #[trigger]
        post.raised.contains(i2) implies i2 < post.max_id && 1 - i32::MAX <= stored_gen(
        post,
        i2,
    ) <= 0 by {
        assert(m.raised.contains(i2));
    }
    assert forall|i2: Index| #[trigger]
        post.alive.contains(i2) implies i2 < post.max_id && stored_gen(post, i2) > 0 by {
        assert(m.alive.contains(i2));
    }
    assert forall|k2: int| 0 <= k2 < post.cache.len() implies {
        let i2 = #[trigger] post.cache[k2];
        &&& i2 < post.max_id
        &&& stored_gen(post, i2) <= 0
        &&& !post.raised.contains(i2)
        &&& !post.alive.contains(i2)
    } by {
        let i2 = post.cache[k2];
        assert(m.cache[k2] == i2);
        if i2 == e.0 {
            assert(stored_gen(m, e.0) <= 0 && !m.raised.contains(e.0));
        }
    }
}

/// Facts about the state after killing a prefix of live entities: it stays
/// well-formed, the cache, the pending deletions and `max_id` are
/// untouched, each killed index holds a dead generation outside every set,
/// and the killed indices are pairwise distinct.
proof fn lemma_kill_prefix_facts(pre: AllocModel, s: Seq<(Index, int)>, k: int)
    requires
        wf_model(pre),
        kill_reachable_ok(pre, s),
        0 <= k <= s.len(),
        kill_prefix_ok(pre, s, k),
    ensures
        wf_model(spec_kill_prefix(pre, s, k)),
        spec_kill_prefix(pre, s, k).killed == pre.killed,
        spec_kill_prefix(pre, s, k).cache == pre.cache,
        spec_kill_prefix(pre, s, k).max_id == pre.max_id,
        spec_kill_prefix(pre, s, k).gens.len() >= pre.gens.len(),
        forall|j: int|
            0 <= j < k ==> {
                let i = (#[trigger] s[j]).0;
                &&& i < spec_kill_prefix(pre, s, k).gens.len()
                &&& stored_gen(spec_kill_prefix(pre, s, k), i) < 0
                &&& !spec_kill_prefix(pre, s, k).raised.contains(i)
                &&& !spec_kill_prefix(pre, s, k).alive.contains(i)
                &&& !spec_kill_prefix(pre, s, k).cache.contains(i)
            },
        forall|j1: int, j2: int| 0 <= j1 < j2 < k ==> s[j1].0 != s[j2].0,
    decreases k,
{
    if k > 0 {
        lemma_kill_prefix_facts(pre, s, k - 1);
        let cur = spec_kill_prefix(pre, s, k - 1);
        let post = spec_kill_prefix(pre, s, k);
        let e = s[k - 1];
        assert(spec_is_alive(cur, e));
        assert(kill_prefix_ok(pre, s, k - 1));
        assert(cur.raised.contains(e.0) || (e.0 < cur.gens.len() && e.1 > 0));
        lemma_kill_one_wf(cur, e);
        assert(post == spec_kill_one(cur, e));
        assert forall|j: int| 0 <= j < k implies {
            let i = (#[trigger] s[j]).0;
            &&& i < post.gens.len()
            &&& stored_gen(post, i) < 0
            &&& !post.raised.contains(i)
            &&& !post.alive.contains(i)
            &&& !post.cache.contains(i)
        } by {
            if j < k - 1 {
                if s[j].0 == e.0 {
                    assert(stored_gen(cur, e.0) < 0);
                    assert(!cur.raised.contains(e.0));
                    assert(e.1 == stored_gen(cur, e.0));
                    assert(false);
                }
                assert(stored_gen(post, s[j].0) == stored_gen(cur, s[j].0));
                assert(post.gens.len() >= cur.gens.len());
                assert(stored_gen(post, s[j].0) < 0 ==> s[j].0 < post.gens.len());
            } else {
                assert(stored_gen(post, e.0) < 0);
                if post.cache.contains(e.0) {
                    let c = choose|c: int|
                        0 <= c < post.cache.len() && #[trigger] post.cache[c] == e.0;
                    assert(cur.cache[c] == e.0);
                    assert(stored_gen(cur, e.0) <= 0 && !cur.raised.contains(e.0));
                    assert(e.1 == stored_gen(cur, e.0));
                    assert(false);
                }
            }
        }
        assert forall|j1: int, j2: int| 0 <= j1 < j2 < k implies s[j1].0 != s[j2].0 by {
            if j2 == k - 1 && s[j1].0 == e.0 {
                assert(stored_gen(cur, e.0) < 0);
                assert(!cur.raised.contains(e.0));
                assert(e.1 == stored_gen(cur, e.0));
                assert(false);
            }
        }
    }
}

/// Taking one more element of a sequence adds exactly that element to the
/// taken prefix.
proof fn lemma_take_step<A>(s: Seq<A>, t: int)
    requires
        0 < t <= s.len(),
    ensures
        s.take(t).to_set() == s.take(t - 1).to_set().insert(s[t - 1]),
        s.take(t).contains(s[t - 1]),
        forall|x: A| #[trigger] s.take(t).contains(x) == (s.take(t - 1).contains(x) || x == s[t
            - 1]),
{
    assert(s.take(t)[t - 1] == s[t - 1]);
    assert forall|x: A| #[trigger] s.take(t).contains(x) implies (s.take(t - 1).contains(x) || x
        == s[t - 1]) by {
        let k = choose|k: int| 0 <= k < t && #[trigger] s.take(t)[k] == x;
        if k < t - 1 {
            assert(s.take(t - 1)[k] == x);
        }
    }
    assert forall|x: A| s.take(t - 1).contains(x) implies #[trigger] s.take(t).contains(x) by {
        let k = choose|k: int| 0 <= k < t - 1 && #[trigger] s.take(t - 1)[k] == x;
        assert(s.take(t)[k] == x);
    }
    assert(s.take(t).to_set() =~= s.take(t - 1).to_set().insert(s[t - 1]));
}

/// Adds one to the counter and returns its previous value, unless the
/// counter is saturated.
pub(crate) fn atomic_add1(i: &mut usize) -> (r: Option<usize>)
    ensures
        *old(i) < usize::MAX ==> r == Some(*old(i)) && *final(i) == *old(i) + 1,
        *old(i) == usize::MAX ==> r is None && *final(i) == *old(i),
{
    if *i < usize::MAX {
        let prev = *i;
        *i = prev + 1;
        Some(prev)
    } else {
        None
    }
}

/// Overwrites slot `i` of the generation table.
fn set_gen(v: &mut Vec<Generation>, i: usize, g: Generation)
    requires
        i < old(v).len(),
    ensures
        final(v)@ == old(v)@.update(i as int, g),
{
    let slot = &mut v[i];
    *slot = g;
}

/// Generation monotonicity at the allocator: a synchronous allocation
/// issues an alive generation that is strictly greater than the magnitude
/// of every generation its slot held before, so the generations assigned to
/// one index grow strictly across reuses.
pub proof fn lemma_allocate_bumps_generation(m: AllocModel)
    requires
        wf_model(m),
    ensures
        spec_allocate(m).1.1 == 1 - stored_gen(m, spec_allocate(m).1.0),
        spec_allocate(m).1.1 > 0,
        spec_allocate(m).1.1 > -stored_gen(m, spec_allocate(m).1.0),
        stored_gen(spec_allocate(m).0, spec_allocate(m).1.0) == spec_allocate(m).1.1,
{
    let (i, cache1, max1) = spec_pick(m);
    if m.cache.len() > 0 {
        assert(m.cache[m.cache.len() - 1] == i);
        assert(stored_gen(m, i) <= 0);
    } else {
        assert(stored_gen(m, i) == 0);
    }
    assert(spec_allocate(m).0.gens[i as int] == 1 - stored_gen(m, i));
}

/// A token with alive generation `g` is retired at a state when its slot's
/// stored generation has moved past it: it stores `-g` or beyond in
/// magnitude.
pub open spec fn retired(m: AllocModel, e: (Index, int)) -> bool {
    &&& e.1 > 0
    &&& (stored_gen(m, e.0) >= e.1 + 1 || stored_gen(m, e.0) <= -e.1)
}

/// No stale aliasing, part one: a retired token is never observed alive.
pub proof fn lemma_retired_not_alive(m: AllocModel, e: (Index, int))
    requires
        wf_model(m),
        retired(m, e),
    ensures
        !spec_is_alive(m, e),
{
    assert(e.0 < m.gens.len());
}

/// No stale aliasing, part two: killing a live token retires it.
pub proof fn lemma_kill_retires(m: AllocModel, e: (Index, int))
    requires
        wf_model(m),
        spec_is_alive(m, e),
        m.raised.contains(e.0) || (e.0 < m.gens.len() && e.1 > 0),
    ensures
        retired(spec_kill_one(m, e), e),
{
    if m.raised.contains(e.0) {
        assert(stored_gen(m, e.0) <= 0);
    }
}

/// No stale aliasing, part three: both allocation paths keep every retired
/// token retired.
pub proof fn lemma_retired_preserved_allocate(m: AllocModel, e: (Index, int))
    requires
        wf_model(m),
        retired(m, e),
    ensures
        retired(spec_allocate(m).0, e),
        retired(spec_allocate_atomic(m).0, e),
{
    let (i, cache1, max1) = spec_pick(m);
    if i == e.0 {
        if m.cache.len() > 0 {
            assert(m.cache[m.cache.len() - 1] == i);
            assert(stored_gen(m, i) <= 0);
        } else {
            assert(stored_gen(m, i) == 0);
        }
    }
}

/// No stale aliasing, part four: a synchronous kill of any other live token
/// keeps a retired token retired.
pub proof fn lemma_retired_preserved_kill_one(m: AllocModel, d: (Index, int), e: (Index, int))
    requires
        wf_model(m),
        retired(m, e),
        spec_is_alive(m, d),
        m.raised.contains(d.0) || (d.0 < m.gens.len() && d.1 > 0),
    ensures
        retired(spec_kill_one(m, d), e),
{
    if d.0 == e.0 {
        if m.raised.contains(d.0) {
            assert(stored_gen(m, d.0) <= 0);
        }
    }
}

/// No stale aliasing, part five: a merge keeps every retired token retired.
pub proof fn lemma_retired_preserved_merge(
    pre: AllocModel,
    post: AllocModel,
    del: Seq<(Index, int)>,
    e: (Index, int),
)
    requires
        wf_model(pre),
        retired(pre, e),
        forall|i: Index| #[trigger]
            pre.killed.contains(i) ==> pre.raised.contains(i) || stored_gen(pre, i) > 0,
        merge_rel(pre, post, del),
    ensures
        retired(post, e),
{
    assert(e.0 < pre.gens.len());
    assert(post.gens[e.0 as int] == merged_gen(pre, e.0));
    if pre.raised.contains(e.0) {
        assert(stored_gen(pre, e.0) <= 0);
    }
}

/// Merge idempotence: a merge on a state with nothing pending changes
/// nothing and deletes nothing.
pub proof fn lemma_merge_idempotent(pre: AllocModel, post: AllocModel, del: Seq<(Index, int)>)
    requires
        wf_model(pre),
        pre.raised == Set::<Index>::empty(),
        pre.killed == Set::<Index>::empty(),
        merge_rel(pre, post, del),
    ensures
        post == pre,
        del == Seq::<(Index, int)>::empty(),
{
    assert(del.len() == 0) by {
        if del.len() > 0 {
            assert(pre.killed.contains(del[0].0));
        }
    }
    assert(del =~= Seq::<(Index, int)>::empty());
    assert(post.gens.len() == pre.gens.len());
    assert(post.gens =~= pre.gens);
    assert(post.alive =~= pre.alive);
    assert(del_ids(del) =~= Seq::<Index>::empty());
    assert(post.cache =~= pre.cache + del_ids(del));
    assert(post.cache =~= pre.cache);
    assert(post =~= pre);
}

/// Atomic/sync equivalence for creation: from a quiescent state, an atomic
/// allocation followed by a merge issues the same entity and leaves the
/// same generation table, live set, cache and `max_id` as the synchronous
/// allocation.
pub proof fn lemma_allocate_atomic_merge_equiv(
    pre: AllocModel,
    post: AllocModel,
    del: Seq<(Index, int)>,
)
    requires
        wf_model(pre),
        pre.raised == Set::<Index>::empty(),
        pre.killed == Set::<Index>::empty(),
        merge_rel(spec_allocate_atomic(pre).0, post, del),
    ensures
        spec_allocate_atomic(pre).1 == spec_allocate(pre).1,
        post.gens == spec_allocate(pre).0.gens,
        post.alive == spec_allocate(pre).0.alive,
        post.cache == spec_allocate(pre).0.cache,
        post.max_id == spec_allocate(pre).0.max_id,
        post.raised == Set::<Index>::empty(),
        post.killed == Set::<Index>::empty(),
        del == Seq::<(Index, int)>::empty(),
{
    let mid = spec_allocate_atomic(pre).0;
    let (i, cache1, max1) = spec_pick(pre);
    if pre.cache.len() > 0 {
        assert(pre.cache[pre.cache.len() - 1] == i);
        assert(stored_gen(pre, i) <= 0);
    } else {
        assert(stored_gen(pre, i) == 0);
    }
    assert(mid.raised =~= Set::<Index>::empty().insert(i));
    assert(mid.raised.contains(i));
    assert(del.len() == 0) by {
        if del.len() > 0 {
            assert(mid.killed.contains(del[0].0));
        }
    }
    assert(del =~= Seq::<(Index, int)>::empty());
    assert(i < post.gens.len());
    assert(post.gens.len() == spec_allocate(pre).0.gens.len()) by {
        if post.gens.len() > mid.gens.len() {
            assert(mid.raised.contains(((post.gens.len() - 1) as int) as Index));
        }
        if i as int + 1 > pre.gens.len() {
            assert(post.gens.len() == i as int + 1);
        }
    }
    assert(post.gens =~= spec_allocate(pre).0.gens) by {
        assert(forall|k: int|
            0 <= k < post.gens.len() ==> #[trigger] post.gens[k] == merged_gen(mid, k as Index));
    }
    assert(post.alive =~= spec_allocate(pre).0.alive);
    assert(del_ids(del) =~= Seq::<Index>::empty());
    assert(post.cache =~= cache1);
}

/// Atomic/sync equivalence for deletion: from a quiescent state, an atomic
/// kill of a live token with a positively stored generation, followed by a
/// merge, leaves the same generation table and live set as the synchronous
/// kill, reports exactly that entity, and frees its index.
pub proof fn lemma_kill_atomic_merge_equiv(
    pre: AllocModel,
    e: (Index, int),
    post: AllocModel,
    del: Seq<(Index, int)>,
)
    requires
        wf_model(pre),
        pre.raised == Set::<Index>::empty(),
        pre.killed == Set::<Index>::empty(),
        spec_is_alive(pre, e),
        e.0 < pre.gens.len(),
        e.1 > 0,
        merge_rel(AllocModel { killed: pre.killed.insert(e.0), ..pre }, post, del),
    ensures
        post.gens == spec_kill_one(pre, e).gens,
        post.alive == spec_kill_one(pre, e).alive,
        post.cache == pre.cache + del_ids(del),
        post.max_id == pre.max_id,
        del == seq![(e.0, e.1)],
        !spec_is_alive(post, e),
{
    let mid = AllocModel { killed: pre.killed.insert(e.0), ..pre };
    assert(stored_gen(pre, e.0) == e.1);
    assert(mid.killed.contains(e.0));
    assert(del_ids(del).contains(e.0));
    assert(del.len() >= 1);
    assert(del.len() == 1) by {
        if del.len() > 1 {
            assert(mid.killed.contains(del[0].0));
            assert(mid.killed.contains(del[1].0));
            assert(del[0].0 == e.0 && del[1].0 == e.0);
            assert(del[0].0 < del[1].0);
        }
    }
    assert(del[0].0 == e.0) by {
        assert(mid.killed.contains(del[0].0));
    }
    assert(del[0].1 == promoted_gen(mid, e.0));
    assert(promoted_gen(mid, e.0) == e.1);
    assert(del =~= seq![(e.0, e.1)]);
    assert(post.gens.len() == pre.gens.len());
    assert(spec_kill_one(pre, e).gens.len() == pre.gens.len()) by {
        assert(grown(pre.gens, e.0 as int + 1) =~= pre.gens);
    }
    assert(post.gens =~= spec_kill_one(pre, e).gens) by {
        assert(grown(pre.gens, e.0 as int + 1) =~= pre.gens);
        assert(forall|k: int|
            0 <= k < post.gens.len() ==> #[trigger] post.gens[k] == merged_gen(mid, k as Index));
    }
    assert(post.alive =~= spec_kill_one(pre, e).alive);
    assert(post.gens[e.0 as int] == -e.1);
}

/// Builder safety: registering a live entity for deletion and merging
/// leaves it dead, whatever else was pending.
pub proof fn lemma_kill_atomic_merge_kills(
    pre: AllocModel,
    e: (Index, int),
    post: AllocModel,
    del: Seq<(Index, int)>,
)
    requires
        wf_model(pre),
        spec_is_alive(pre, e),
        pre.raised.contains(e.0) || (e.0 < pre.gens.len() && stored_gen(pre, e.0) > 0),
        forall|i: Index| #[trigger]
            pre.killed.contains(i) ==> pre.raised.contains(i) || stored_gen(pre, i) > 0,
        merge_rel(AllocModel { killed: pre.killed.insert(e.0), ..pre }, post, del),
    ensures
        !spec_is_alive(post, e),
{
    let mid = AllocModel { killed: pre.killed.insert(e.0), ..pre };
    assert(mid.killed.contains(e.0));
    assert(e.0 < post.gens.len()) by {
        if !pre.raised.contains(e.0) {
            assert(e.0 < pre.gens.len());
        }
    }
    assert(post.gens[e.0 as int] == merged_gen(mid, e.0));
    assert(promoted_gen(mid, e.0) == e.1) by {
        if pre.raised.contains(e.0) {
            assert(stored_gen(pre, e.0) <= 0);
        }
    }
    assert(e.1 > 0) by {
        if pre.raised.contains(e.0) {
            assert(stored_gen(pre, e.0) <= 0);
        }
    }
    assert(stored_gen(post, e.0) == -e.1);
}

} // verus!
