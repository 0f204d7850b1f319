use rusty_ecs_core::{Entity, World};

struct Health(u32);
struct Tag();
struct DamageEvent(u32);

#[test]
fn test_world_basics() {
    let mut world = World::new();
    let e1 = world.create_entity();
    let e2 = world.create_entity();

    world.add_component(e1, Health(100));
    world.add_component(e1, Tag());
    world.add_component(e2, Health(50));

    // Test retrieval
    assert_eq!(world.get_component::<Health>(e1).unwrap().0, 100);
    assert_eq!(world.get_component::<Health>(e2).unwrap().0, 50);
    assert!(world.get_component::<Tag>(e1).is_some());
    assert!(world.get_component::<Tag>(e2).is_none());

    // Test mutation
    if let Some(h) = world.get_component_mut::<Health>(e1) {
        h.0 -= 20;
    }
    assert_eq!(world.get_component::<Health>(e1).unwrap().0, 80);

    // Test query
    let health_entities = world.query_entities::<Health>();
    assert_eq!(health_entities.len(), 2);
    assert!(health_entities.contains(&e1));
    assert!(health_entities.contains(&e2));

    let pos_entities = world.query_entities::<Tag>();
    assert_eq!(pos_entities.len(), 1);
    assert!(pos_entities.contains(&e1));
}

#[test]
fn test_world_events() {
    let mut world = World::new();
    world.push_event(DamageEvent(10));
    world.push_event(DamageEvent(20));

    let events = world.take_events::<DamageEvent>();
    assert_eq!(events.len(), 2);
    assert_eq!(events[0].0, 10);
    assert_eq!(events[1].0, 20);

    let empty_events = world.take_events::<DamageEvent>();
    assert_eq!(empty_events.len(), 0);
}

#[test]
fn test_entity_destruction() {
    let mut world = World::new();
    let e1 = world.create_entity();
    world.add_component(e1, Health(100));

    world.destroy_entity(e1);
    assert!(world.get_component::<Health>(e1).is_none());

    let e2 = world.create_entity();
    // e2 should reuse e1's ID but have a different generation
    assert_eq!(e1.id, e2.id);
    assert_ne!(e1.generation, e2.generation);
    assert!(world.get_component::<Health>(e2).is_none());
}

#[test]
fn component_round_trip_and_overwrite() {
    let mut world = World::new();
    let e = world.create_entity();
    assert!(world.get_component::<Health>(e).is_none());
    assert!(world.get_component_mut::<Health>(e).is_none());

    world.add_component(e, Health(7));
    assert_eq!(world.get_component::<Health>(e).unwrap().0, 7);

    world.add_component(e, Health(9));
    assert_eq!(world.get_component::<Health>(e).unwrap().0, 9);
    assert_eq!(world.query_entities::<Health>(), vec![e]);

    world.get_component_mut::<Health>(e).unwrap().0 = 11;
    assert_eq!(world.get_component::<Health>(e).unwrap().0, 11);
}

#[test]
fn destruction_sweeps_every_type_and_nothing_else() {
    let mut world = World::new();
    let e1 = world.create_entity();
    let e2 = world.create_entity();
    world.add_component(e1, Health(1));
    world.add_component(e1, Tag());
    world.add_component(e1, 5u64);
    world.add_component(e2, Health(2));
    world.add_component(e2, 6u64);
    world.push_event(DamageEvent(3));

    world.destroy_entity(e1);

    assert!(world.get_component::<Health>(e1).is_none());
    assert!(world.get_component::<Tag>(e1).is_none());
    assert!(world.get_component::<u64>(e1).is_none());
    assert_eq!(world.get_component::<Health>(e2).unwrap().0, 2);
    assert_eq!(world.get_component::<u64>(e2), Some(&6u64));
    assert_eq!(world.query_entities::<Health>(), vec![e2]);
    assert_eq!(world.query_entities::<Tag>(), Vec::<Entity>::new());
    assert_eq!(world.take_events::<DamageEvent>().len(), 1);
}

#[test]
fn components_may_be_filed_under_handles_that_are_not_live() {
    let mut world = World::new();
    let never = Entity { id: 40, generation: 2 };
    world.add_component(never, Health(5));
    assert_eq!(world.get_component::<Health>(never).unwrap().0, 5);
    assert_eq!(world.query_entities::<Health>(), vec![never]);

    // The registry knows nothing of the handle: the next one is the first.
    assert_eq!(world.create_entity(), Entity { id: 0, generation: 0 });

    // Destroying a stale handle still sweeps what is filed under it.
    let e = world.create_entity();
    world.destroy_entity(e);
    world.add_component(e, Health(8));
    world.destroy_entity(e);
    assert!(world.get_component::<Health>(e).is_none());
    assert_eq!(world.create_entity(), Entity { id: e.id, generation: e.generation + 1 });
}

#[test]
fn events_keep_publish_order_per_type() {
    let mut world = World::new();
    world.push_event(DamageEvent(1));
    world.push_event(7u8);
    world.push_event(DamageEvent(2));
    world.push_event(DamageEvent(3));
    world.push_event(8u8);

    let damage: Vec<u32> = world.take_events::<DamageEvent>().into_iter().map(|d| d.0).collect();
    assert_eq!(damage, vec![1, 2, 3]);
    assert_eq!(world.take_events::<DamageEvent>().len(), 0);

    // Draining one type left the other alone.
    assert_eq!(world.take_events::<u8>(), vec![7u8, 8u8]);
    assert_eq!(world.take_events::<u8>(), Vec::<u8>::new());
    // A type that was never published drains to nothing.
    assert_eq!(world.take_events::<u16>(), Vec::<u16>::new());
}

#[test]
fn query_is_the_set_of_holders_whatever_the_order() {
    let mut world = World::new();
    let mut made: Vec<Entity> = Vec::new();
    for _ in 0..6 {
        made.push(world.create_entity());
    }
    for &i in &[4usize, 0, 5, 2] {
        world.add_component(made[i], Health(i as u32));
    }
    world.add_component(made[1], Tag());

    let mut found = world.query_entities::<Health>();
    found.sort();
    assert_eq!(found, vec![made[0], made[2], made[4], made[5]]);

    world.destroy_entity(made[2]);
    let mut found = world.query_entities::<Health>();
    found.sort();
    assert_eq!(found, vec![made[0], made[4], made[5]]);
    assert_eq!(world.query_entities::<u8>(), Vec::<Entity>::new());
}
