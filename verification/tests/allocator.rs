use specs::allocator::Allocator;
use specs::cache::EntityCache;
use specs::entity::{Entity, Generation};

#[test]
fn generation_new_id_is_alive() {
    let g = Generation::new(3);
    assert_eq!(g.id(), 3);
    assert!(g.is_alive());
    let d = Generation::new(-3);
    assert_eq!(d.id(), -3);
    assert!(!d.is_alive());
    assert!(!Generation::new(0).is_alive());
}

#[test]
fn generation_die_and_raised_alternate() {
    // One full reuse cycle: alive 2 dies to -2, the slot is raised to 3.
    let mut g = Generation::new(2);
    g.die();
    assert_eq!(g.id(), -2);
    assert!(!g.is_alive());
    let r = g.raised();
    assert_eq!(r.id(), 3);
    assert!(r.is_alive());
    // The never-used sentinel raises to the first generation.
    assert_eq!(Generation::new(0).raised().id(), 1);
}

#[test]
fn entity_accessors() {
    let e = Entity::new(7, Generation::new(2));
    assert_eq!(e.id(), 7);
    assert_eq!(e.gen(), Generation::new(2));
    assert_eq!(e, Entity::new(7, Generation::new(2)));
    assert_ne!(e, Entity::new(7, Generation::new(1)));
}

#[test]
fn fresh_world_allocates_densely() {
    // Two allocations from a fresh allocator issue (0, 1) and (1, 1); the
    // next never-issued index is then 2.
    let mut a = Allocator::default();
    let e0 = a.allocate();
    let e1 = a.allocate();
    assert_eq!(e0, Entity::new(0, Generation::new(1)));
    assert_eq!(e1, Entity::new(1, Generation::new(1)));
    assert!(a.is_alive(e0));
    assert!(a.is_alive(e1));
    let e2 = a.allocate();
    assert_eq!(e2, Entity::new(2, Generation::new(1)));
}

#[test]
fn kill_frees_index_and_bumps_generation() {
    let mut a = Allocator::default();
    let e0 = a.allocate();
    let _e1 = a.allocate();
    assert!(a.kill(&vec![Entity::new(0, Generation::new(1))]).is_ok());
    assert!(!a.is_alive(Entity::new(0, Generation::new(1))));
    // Index 0 sits in the free cache, so the next allocation reuses it with
    // the bumped generation.
    let e = a.allocate();
    assert_eq!(e, Entity::new(0, Generation::new(2)));
    assert!(a.is_alive(e));
    assert!(!a.is_alive(e0));
}

#[test]
fn kill_of_stale_token_reports_wrong_generation() {
    let mut a = Allocator::default();
    let e = a.allocate();
    assert!(a.kill(&vec![e]).is_ok());
    let err = a.kill(&vec![e]).unwrap_err();
    assert_eq!(err.action, "delete");
    assert_eq!(err.entity, e);
    assert_eq!(err.actual_gen, Generation::new(-1));
}

#[test]
fn allocate_atomic_is_visible_before_merge() {
    // Atomic allocations hand out distinct identifiers that already read
    // as alive, in two bursts standing for two producers.
    let mut a = Allocator::default();
    let mut seen = std::collections::HashSet::new();
    let mut entities = Vec::new();
    for _ in 0..2 {
        for _ in 0..10_000 {
            let e = a.allocate_atomic();
            assert!(e.id() < 20_000);
            assert!(seen.insert((e.id(), e.gen().id())));
            entities.push(e);
        }
    }
    assert_eq!(seen.len(), 20_000);
    for e in &entities {
        assert!(a.is_alive(*e));
    }
    let deleted = a.merge();
    assert!(deleted.is_empty());
    for e in &entities {
        assert!(a.is_alive(*e));
    }
}

#[test]
fn kill_atomic_takes_effect_at_merge() {
    let mut a = Allocator::default();
    let e = a.allocate();
    assert!(a.kill_atomic(e).is_ok());
    // Still visible as alive until the merge.
    assert!(a.is_alive(e));
    let deleted = a.merge();
    assert_eq!(deleted, vec![e]);
    assert!(!a.is_alive(e));
    // A stale token is rejected.
    let err = a.kill_atomic(e).unwrap_err();
    assert_eq!(err.action, "delete");
    assert_eq!(err.entity, e);
    assert_eq!(err.actual_gen, Generation::new(-1));
}

#[test]
fn merge_on_quiescent_allocator_is_a_no_op() {
    let mut a = Allocator::default();
    let e0 = a.allocate();
    let e1 = a.allocate();
    let deleted = a.merge();
    assert!(deleted.is_empty());
    assert!(a.is_alive(e0));
    assert!(a.is_alive(e1));
    // The next index is unaffected.
    assert_eq!(a.allocate(), Entity::new(2, Generation::new(1)));
}

#[test]
fn merge_reports_deletions_in_ascending_index_order() {
    let mut a = Allocator::default();
    let e0 = a.allocate();
    let e1 = a.allocate();
    let e2 = a.allocate();
    assert!(a.kill_atomic(e2).is_ok());
    assert!(a.kill_atomic(e0).is_ok());
    let deleted = a.merge();
    assert_eq!(deleted, vec![e0, e2]);
    assert!(a.is_alive(e1));
}

#[test]
fn atomic_and_sync_paths_agree_after_merge() {
    // The same script through the atomic path plus a merge observes the
    // same liveness and projected entities as the synchronous path.
    let mut sync = Allocator::default();
    let mut atomic = Allocator::default();

    let s0 = sync.allocate();
    let a0 = atomic.allocate_atomic();
    assert_eq!(s0, a0);
    assert!(atomic.merge().is_empty());

    assert!(sync.kill(&vec![s0]).is_ok());
    assert!(atomic.kill_atomic(a0).is_ok());
    assert_eq!(atomic.merge(), vec![a0]);

    assert!(!sync.is_alive(s0));
    assert!(!atomic.is_alive(a0));
    assert_eq!(sync.entity(0), atomic.entity(0));

    // Both reuse the freed index the same way.
    let s1 = sync.allocate();
    let a1 = atomic.allocate_atomic();
    assert_eq!(s1, a1);
    assert_eq!(s1, Entity::new(0, Generation::new(2)));
}

#[test]
fn generations_grow_across_reuses() {
    // A slot's alive generation grows by one per reuse and never matches a
    // stale token again.
    let mut a = Allocator::default();
    let mut stale = Vec::new();
    for round in 1..=5 {
        let e = a.allocate();
        assert_eq!(e, Entity::new(0, Generation::new(round)));
        for s in &stale {
            assert!(!a.is_alive(*s));
        }
        assert!(a.kill(&vec![e]).is_ok());
        stale.push(e);
    }
}

#[test]
fn can_allocate_on_fresh_allocator() {
    let a = Allocator::default();
    assert!(a.can_allocate());
}

#[test]
fn cache_pops_in_lifo_order() {
    let mut c = EntityCache::new();
    assert_eq!(c.pop_atomic(), None);
    c.extend(&vec![4, 7, 9]);
    assert_eq!(c.pop_atomic(), Some(9));
    assert_eq!(c.pop_atomic(), Some(7));
    assert_eq!(c.last(), Some(4));
    assert_eq!(c.pop_atomic(), Some(4));
    assert_eq!(c.pop_atomic(), None);
}

#[test]
fn cache_maintain_reconciles_speculative_pops() {
    let mut c = EntityCache::new();
    c.extend(&vec![1, 2, 3]);
    assert_eq!(c.pop_atomic(), Some(3));
    c.maintain();
    assert_eq!(c.pop_atomic(), Some(2));
    c.extend(&vec![8]);
    assert_eq!(c.pop_atomic(), Some(8));
    assert_eq!(c.pop_atomic(), Some(1));
    assert_eq!(c.pop_atomic(), None);
}
