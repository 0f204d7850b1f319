use rusty_ecs_core::{ComponentManager, ComponentStorage, Entity, HashMapComponentStorage};

#[derive(Debug, PartialEq)]
struct Position {
    x: f32,
    y: f32,
}

#[derive(Debug, PartialEq)]
struct Velocity {
    dx: f32,
    dy: f32,
}

#[test]
fn test_insert_and_get_component() {
    let mut storage = HashMapComponentStorage::<Position>::new();
    let entity = Entity { id: 1, generation: 0 };

    storage.insert(entity, Position { x: 10.0, y: 20.0 });

    let pos = storage.get(entity);
    assert!(pos.is_some());
    assert_eq!(pos.unwrap(), &Position { x: 10.0, y: 20.0 });
}

#[test]
fn test_get_mut_component() {
    let mut storage = HashMapComponentStorage::<Position>::new();
    let entity = Entity { id: 2, generation: 0 };

    storage.insert(entity, Position { x: 1.0, y: 2.0 });

    if let Some(pos) = storage.get_mut(entity) {
        pos.x = 5.0;
    }

    assert_eq!(storage.get(entity), Some(&Position { x: 5.0, y: 2.0 }));
}

#[test]
fn test_remove_component() {
    let mut storage = HashMapComponentStorage::<Position>::new();
    let entity = Entity { id: 3, generation: 0 };

    storage.insert(entity, Position { x: 0.0, y: 0.0 });
    storage.remove(entity);

    assert!(storage.get(entity).is_none());
}

#[test]
fn test_entities_iterator() {
    let mut storage = HashMapComponentStorage::<Position>::new();

    let e1 = Entity { id: 1, generation: 0 };
    let e2 = Entity { id: 2, generation: 0 };

    storage.insert(e1, Position { x: 0.0, y: 0.0 });
    storage.insert(e2, Position { x: 1.0, y: 1.0 });

    let entities: Vec<Entity> = storage.entities();

    assert_eq!(entities.len(), 2);
    assert!(entities.contains(&e1));
    assert!(entities.contains(&e2));
}

#[test]
fn test_register_and_get_storage() {
    let mut manager = ComponentManager::new();

    manager.register::<Position>();

    let storage = manager.get_storage::<Position>();
    assert!(storage.is_some());
}

#[test]
fn test_add_component_creates_storage_if_missing() {
    let mut manager = ComponentManager::new();
    let entity = Entity { id: 10, generation: 0 };

    manager.add_component(entity, Position { x: 3.0, y: 4.0 });

    let storage = manager.get_storage::<Position>().unwrap();
    assert_eq!(storage.get(entity), Some(&Position { x: 3.0, y: 4.0 }));
}

#[test]
fn component_test_multiple_component_types() {
    let mut manager = ComponentManager::new();
    let entity = Entity { id: 11, generation: 0 };

    manager.add_component(entity, Position { x: 1.0, y: 2.0 });
    manager.add_component(entity, Velocity { dx: 0.5, dy: 1.5 });

    let pos_storage = manager.get_storage::<Position>().unwrap();
    let vel_storage = manager.get_storage::<Velocity>().unwrap();

    assert_eq!(pos_storage.get(entity), Some(&Position { x: 1.0, y: 2.0 }));

    assert_eq!(vel_storage.get(entity), Some(&Velocity { dx: 0.5, dy: 1.5 }));
}

#[test]
fn test_remove_all_components() {
    let mut manager = ComponentManager::new();
    let entity = Entity { id: 12, generation: 0 };

    manager.add_component(entity, Position { x: 1.0, y: 2.0 });
    manager.add_component(entity, Velocity { dx: 3.0, dy: 4.0 });

    manager.remove_all_components(entity);

    let pos_storage = manager.get_storage::<Position>().unwrap();
    let vel_storage = manager.get_storage::<Velocity>().unwrap();

    assert!(pos_storage.get(entity).is_none());
    assert!(vel_storage.get(entity).is_none());
}

#[test]
fn test_get_storage_returns_none_if_not_registered() {
    let manager = ComponentManager::new();
    assert!(manager.get_storage::<Position>().is_none());
}

#[test]
fn insert_overwrites_and_get_mut_misses_what_is_not_there() {
    let mut storage = HashMapComponentStorage::<Position>::new();
    let here = Entity { id: 7, generation: 3 };
    let same_id = Entity { id: 7, generation: 4 };
    let swapped = Entity { id: 3, generation: 7 };

    storage.insert(here, Position { x: 1.0, y: 1.0 });
    storage.insert(here, Position { x: 2.0, y: 2.0 });

    assert_eq!(storage.get(here), Some(&Position { x: 2.0, y: 2.0 }));
    assert_eq!(storage.entities(), vec![here]);
    assert!(storage.get(same_id).is_none());
    assert!(storage.get(swapped).is_none());
    assert!(storage.get_mut(same_id).is_none());
    assert!(storage.get_mut(swapped).is_none());

    storage.remove(same_id);
    assert_eq!(storage.entities(), vec![here]);
    storage.remove(here);
    assert_eq!(storage.entities(), Vec::<Entity>::new());
}

#[test]
fn handles_at_the_ends_of_the_range_are_kept_apart() {
    let mut storage = HashMapComponentStorage::<u8>::new();
    let corners = [
        Entity { id: 0, generation: 0 },
        Entity { id: 0, generation: u32::MAX },
        Entity { id: u32::MAX, generation: 0 },
        Entity { id: u32::MAX, generation: u32::MAX },
        Entity { id: 1, generation: 0 },
        Entity { id: 0, generation: 1 },
    ];
    for (i, corner) in corners.iter().enumerate() {
        storage.insert(*corner, i as u8);
    }
    for (i, corner) in corners.iter().enumerate() {
        assert_eq!(storage.get(*corner), Some(&(i as u8)));
    }
    let mut found = storage.entities();
    found.sort();
    let mut expected = corners.to_vec();
    expected.sort();
    assert_eq!(found, expected);
}

#[test]
fn register_is_idempotent_and_keeps_what_is_stored() {
    let mut manager = ComponentManager::new();
    let entity = Entity { id: 1, generation: 0 };

    manager.register::<Position>();
    assert_eq!(manager.get_storage::<Position>().unwrap().entities().len(), 0);
    assert!(manager.get_storage::<Velocity>().is_none());

    manager.add_component(entity, Position { x: 1.0, y: 2.0 });
    manager.register::<Position>();

    let storage = manager.get_storage::<Position>().unwrap();
    assert_eq!(storage.get(entity), Some(&Position { x: 1.0, y: 2.0 }));
}

#[test]
fn get_storage_mut_writes_to_the_store_of_its_type_only() {
    let mut manager = ComponentManager::new();
    let a = Entity { id: 1, generation: 0 };
    let b = Entity { id: 2, generation: 0 };

    assert!(manager.get_storage_mut::<Position>().is_none());
    manager.add_component(a, Position { x: 1.0, y: 2.0 });
    manager.add_component(a, Velocity { dx: 3.0, dy: 4.0 });

    let positions = manager.get_storage_mut::<Position>().unwrap();
    positions.insert(b, Position { x: 5.0, y: 6.0 });
    positions.get_mut(a).unwrap().x = 9.0;

    let positions = manager.get_storage::<Position>().unwrap();
    assert_eq!(positions.get(a), Some(&Position { x: 9.0, y: 2.0 }));
    assert_eq!(positions.get(b), Some(&Position { x: 5.0, y: 6.0 }));
    let velocities = manager.get_storage::<Velocity>().unwrap();
    assert_eq!(velocities.get(a), Some(&Velocity { dx: 3.0, dy: 4.0 }));
    assert!(velocities.get(b).is_none());
}

#[test]
fn sweep_leaves_the_other_entities_alone() {
    let mut manager = ComponentManager::new();
    let a = Entity { id: 1, generation: 0 };
    let b = Entity { id: 1, generation: 1 };

    manager.add_component(a, Position { x: 1.0, y: 2.0 });
    manager.add_component(b, Position { x: 3.0, y: 4.0 });
    manager.add_component(b, Velocity { dx: 5.0, dy: 6.0 });

    manager.remove_all_components(a);

    let positions = manager.get_storage::<Position>().unwrap();
    assert!(positions.get(a).is_none());
    assert_eq!(positions.get(b), Some(&Position { x: 3.0, y: 4.0 }));
    let velocities = manager.get_storage::<Velocity>().unwrap();
    assert_eq!(velocities.get(b), Some(&Velocity { dx: 5.0, dy: 6.0 }));
}
