use rusty_ecs_core::{Entity, EntityManager};

#[test]
fn test_entity_creation() {
    let mut manager = EntityManager::new();

    let e1 = manager.create();
    let e2 = manager.create();

    assert_ne!(e1, e2);
    assert_eq!(e1, Entity { id: 0, generation: 0 });
    assert_eq!(e2, Entity { id: 1, generation: 0 });
}

#[test]
fn test_entity_reuse() {
    let mut manager = EntityManager::new();

    let e1 = manager.create();
    manager.destroy(e1);
    let e2 = manager.create();

    assert_ne!(e1, e2);
    assert_eq!(e2.id, e1.id);
    assert_eq!(e2.generation, e1.generation + 1);
}

#[test]
fn test_double_destroy_does_not_duplicate_free() {
    let mut manager = EntityManager::new();

    let original = manager.create();
    manager.destroy(original);
    manager.destroy(original);

    let e1 = manager.create();
    let e2 = manager.create();

    assert_eq!(e1.id, original.id);
    assert_eq!(e1.generation, original.generation + 1);

    // Second entity should not reuse same id again
    assert_ne!(e2.id, original.id);
}

#[test]
fn test_destroy_stale_entity_is_ignored() {
    let mut manager = EntityManager::new();

    let e1 = manager.create();
    manager.destroy(e1);

    let e2 = manager.create();

    manager.destroy(e1);
    manager.destroy(e2);

    let e3 = manager.create();

    assert_eq!(e3.id, e1.id);
    assert_eq!(e3.generation, e2.generation + 1);
}

#[test]
fn test_multiple_reuse_cycles() {
    let mut manager = EntityManager::new();

    let mut e = manager.create();

    for expected_gen in 1..5 {
        manager.destroy(e);
        e = manager.create();

        assert_eq!(e.id, 0);
        assert_eq!(e.generation, expected_gen);
    }
}

#[test]
fn test_destroy_invalid_id_does_nothing() {
    let mut manager = EntityManager::new();

    let fake = Entity { id: 999, generation: 0 };
    manager.destroy(fake);

    let e = manager.create();
    assert_eq!(e.id, 0);
}

#[test]
fn test_sequential_ids_without_reuse() {
    let mut manager = EntityManager::new();

    for expected_id in 0..100 {
        let e = manager.create();
        assert_eq!(e.id, expected_id);
        assert_eq!(e.generation, 0);
    }
}

#[test]
fn creations_in_a_row_are_pairwise_distinct() {
    let mut manager = EntityManager::new();
    let mut first: Vec<Entity> = Vec::new();
    for _ in 0..6 {
        first.push(manager.create());
    }
    manager.destroy(first[1]);
    manager.destroy(first[4]);
    manager.destroy(first[2]);

    let mut issued: Vec<Entity> = Vec::new();
    for _ in 0..8 {
        issued.push(manager.create());
    }
    for i in 0..issued.len() {
        for j in (i + 1)..issued.len() {
            assert_ne!(issued[i], issued[j]);
        }
    }
    // The free ids come back last in, first out; fresh ids follow.
    assert_eq!(issued[0], Entity { id: 2, generation: 1 });
    assert_eq!(issued[1], Entity { id: 4, generation: 1 });
    assert_eq!(issued[2], Entity { id: 1, generation: 1 });
    assert_eq!(issued[3], Entity { id: 6, generation: 0 });
    assert_eq!(issued[7], Entity { id: 10, generation: 0 });
    // The handles that were not destroyed are none of the new ones.
    assert!(!issued.contains(&first[0]));
    assert!(!issued.contains(&first[3]));
    assert!(!issued.contains(&first[5]));
}

#[test]
fn stale_destroy_leaves_the_reused_id_alone() {
    let mut manager = EntityManager::new();
    let e = manager.create();
    manager.destroy(e);
    let e2 = manager.create();
    assert_eq!(e2, Entity { id: e.id, generation: e.generation + 1 });

    manager.destroy(e);

    // The id was not freed again: the next handle is a fresh one.
    let e3 = manager.create();
    assert_eq!(e3, Entity { id: 1, generation: 0 });
    // And the generation of the reused id did not move.
    manager.destroy(e2);
    let e4 = manager.create();
    assert_eq!(e4, Entity { id: e.id, generation: e2.generation + 1 });
}

#[test]
fn forged_handle_is_destroyed_like_a_current_one() {
    let mut manager = EntityManager::new();
    let e = manager.create();
    manager.destroy(e);
    // Names the free id with the generation it will be issued with.
    let forged = Entity { id: e.id, generation: e.generation + 1 };
    manager.destroy(forged);

    let a = manager.create();
    let b = manager.create();
    assert_eq!(a, Entity { id: 0, generation: 2 });
    assert_eq!(b, Entity { id: 0, generation: 2 });
}

#[test]
fn entity_handles_compare_by_both_fields() {
    let a = Entity { id: 3, generation: 1 };
    let b = Entity { id: 3, generation: 2 };
    let c = Entity { id: 3, generation: 1 };
    assert_ne!(a, b);
    assert_eq!(a, c);
    assert!(a < b);
}
