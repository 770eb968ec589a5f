use ecs_core::component::Component;
use ecs_core::entities::Entities;
use ecs_core::entity_id::EntityId;
use ecs_core::sparse_set::SparseSet;

#[derive(PartialEq, Eq, Debug)]
struct A(u32);

impl Component for A {}

#[test]
fn generate_and_delete() {
    let mut entities = Entities::new();

    let e1 = entities.generate();
    assert!(entities.is_alive(e1));
    assert_eq!(e1.index(), 0);
    assert_eq!(e1.gen(), 0);

    let e2 = entities.generate();
    assert!(entities.is_alive(e2));
    assert_eq!(e2.index(), 1);

    assert!(entities.delete(e1));
    assert!(!entities.is_alive(e1));
    assert!(entities.is_alive(e2));

    // a second delete of the same identifier reports failure
    assert!(!entities.delete(e1));
}

#[test]
fn stale_id_reuses_slot_with_next_generation() {
    let mut entities = Entities::new();

    let e1 = entities.generate();
    assert!(entities.delete(e1));

    let e2 = entities.generate();
    assert_eq!(e2.index(), e1.index());
    assert_eq!(e2.gen(), e1.gen() + 1);

    assert!(!entities.is_alive(e1));
    assert!(entities.is_alive(e2));
}

#[test]
fn stale_id_reads_as_absent_in_storage() {
    let mut entities = Entities::new();
    let mut storage: SparseSet<A> = SparseSet::new();

    let e1 = entities.generate();
    storage.insert(e1, A(7), 0);
    assert!(storage.contains(e1));

    // delete the entity, then reuse its slot
    storage.dyn_delete(e1, 1);
    assert!(entities.delete(e1));
    let e2 = entities.generate();
    assert_eq!(e2.index(), e1.index());

    // the stale identifier never reads as present again, even after the
    // slot is reused by a newer entity
    assert_eq!(storage.private_get(e1), None);
    storage.insert(e2, A(9), 2);
    assert_eq!(storage.private_get(e1), None);
    assert!(!storage.contains(e1));
    assert_eq!(storage.dyn_remove(e1, 3), None);
    assert_eq!(storage.private_get(e2), Some(&A(9)));
}

#[test]
fn spawn_forces_an_identifier_alive() {
    let mut entities = Entities::new();

    let chosen = EntityId::new_from_parts(4, 3);
    assert!(entities.spawn(chosen));
    assert!(entities.is_alive(chosen));

    // the slot has moved past generation 1, so an older identifier is
    // refused
    assert!(!entities.spawn(EntityId::new_from_parts(4, 1)));

    // deleting bumps the slot generation past the deleted identifier, so
    // the identifier itself cannot come back...
    assert!(entities.delete(chosen));
    assert!(!entities.is_alive(chosen));
    assert!(!entities.spawn(chosen));

    // ...but one with an equal-or-greater generation can be forced alive
    let revived = EntityId::new_from_parts(4, 4);
    assert!(entities.spawn(revived));
    assert!(entities.is_alive(revived));
    assert!(!entities.is_alive(chosen));
}

#[test]
fn bulk_generate_mints_distinct_live_ids() {
    let mut entities = Entities::new();
    let before = entities.generate();

    let ids = entities.bulk_generate(10);
    assert_eq!(ids.len(), 10);
    for (i, id) in ids.iter().enumerate() {
        assert!(entities.is_alive(*id));
        for other in &ids[i + 1..] {
            assert_ne!(id, other);
        }
    }
    assert!(entities.is_alive(before));
}

#[test]
fn insert_remove_round_trip() {
    let mut entities = Entities::new();
    let mut storage: SparseSet<A> = SparseSet::new();

    let id = entities.generate();
    storage.insert(id, A(7), 0);
    assert!(storage.contains(id));
    assert_eq!(storage.private_get(id), Some(&A(7)));

    assert_eq!(storage.dyn_remove(id, 1), Some(A(7)));
    assert!(!storage.contains(id));

    assert!(entities.delete(id));
    let id2 = entities.generate();
    assert_eq!(id2.index(), id.index());
    assert!(id2.gen() > id.gen());
}

#[test]
fn packed_form_round_trips() {
    let id = EntityId::new_from_parts(12345, 67);
    let bits = id.to_bits();
    assert_eq!(EntityId::from_bits(bits), id);
    assert_eq!(bits, 67u64 * 0x1_0000_0000 + 12345);
}
