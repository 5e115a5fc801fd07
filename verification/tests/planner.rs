use specs::entities::EntitiesRes;
use specs::entity::{Entity, Generation};
use specs::planner::{FetchPulse, PlannerCore, SystemMeta};

#[test]
fn dispatch_plan_orders_by_descending_priority() {
    // Systems A(prio 10), B(prio 0), C(prio 5) fetch in the order A, C, B.
    let mut core = PlannerCore::new();
    core.add_system(10, 0);
    core.add_system(0, 1);
    core.add_system(5, 2);
    let order = core.dispatch_plan();
    let slots: Vec<usize> = order.iter().map(|m| m.slot).collect();
    assert_eq!(slots, vec![0, 2, 1]);
    assert!(core.metas.is_empty());
}

#[test]
fn dispatch_plan_keeps_equal_priorities_together() {
    let mut core = PlannerCore::new();
    core.add_system(1, 0);
    core.add_system(2, 1);
    core.add_system(1, 2);
    core.add_system(2, 3);
    let order = core.dispatch_plan();
    let prios: Vec<i32> = order.iter().map(|m| m.priority).collect();
    assert_eq!(prios, vec![2, 2, 1, 1]);
    let mut slots: Vec<usize> = order.iter().map(|m| m.slot).collect();
    slots.sort();
    assert_eq!(slots, vec![0, 1, 2, 3]);
}

#[test]
fn fetch_pulse_fires_once() {
    // The first consumption succeeds, every later one reports misuse; the
    // runtime turns that report into its deterministic panic.
    let mut p = FetchPulse::new();
    assert!(p.try_fire());
    assert!(!p.try_fire());
    assert!(!p.try_fire());
}

#[test]
fn wait_accounting_reaches_zero() {
    let mut core = PlannerCore::new();
    core.task_spawned();
    core.task_spawned();
    core.task_returned(Some(SystemMeta { priority: 3, slot: 0 }));
    core.task_returned(None);
    assert_eq!(core.wait_count, 0);
    assert_eq!(core.metas.len(), 1);
    assert_eq!(core.metas[0], SystemMeta { priority: 3, slot: 0 });
}

#[test]
fn entities_res_create_and_delete() {
    let mut res = EntitiesRes::default();
    assert!(res.can_create());
    let e = res.create();
    assert_eq!(e, Entity::new(0, Generation::new(1)));
    assert!(res.is_alive(e));
    assert!(res.delete(e).is_ok());
    assert!(res.is_alive(e));
    let deleted = res.merge();
    assert_eq!(deleted, vec![e]);
    assert!(!res.is_alive(e));
    assert!(res.delete(e).is_err());
}

#[test]
fn entities_res_entity_projects_current_generation() {
    let mut res = EntitiesRes::default();
    let e = res.create();
    assert_eq!(res.entity(0), e);
    // An index that never got a slot projects the first generation.
    assert_eq!(res.entity(9), Entity::new(9, Generation::new(1)));
}

#[test]
fn abandoned_builder_leaves_no_entity_alive() {
    // Building and cancelling compensates the creation: after the next
    // maintenance the entity is gone.
    let mut res = EntitiesRes::default();
    let builder = res.build_entity();
    let e = builder.entity;
    assert!(res.is_alive(e));
    assert!(builder.cancel(&mut res).is_ok());
    res.merge();
    assert!(!res.is_alive(e));
}

#[test]
fn finished_builder_keeps_the_entity() {
    let mut res = EntitiesRes::default();
    let builder = res.build_entity();
    let e = builder.build();
    res.merge();
    assert!(res.is_alive(e));
    assert_eq!(e, Entity::new(0, Generation::new(1)));
}

#[test]
fn create_iter_batches_entities() {
    let mut res = EntitiesRes::default();
    let batch = res.create_iter(3);
    assert_eq!(batch.len(), 3);
    for (k, e) in batch.iter().enumerate() {
        assert_eq!(*e, Entity::new(k as u32, Generation::new(1)));
        assert!(res.is_alive(*e));
    }
    res.merge();
    assert!(res.is_alive(batch[2]));
}
