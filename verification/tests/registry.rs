use ecs_core::borrow_cell::Borrow;
use ecs_core::scheduler::StorageAccess;
use ecs_core::component::Component;
use ecs_core::entities::Entities;
use ecs_core::error::StorageError;
use ecs_core::move_component::move_component;
use ecs_core::registry::StorageRegistry;
use ecs_core::sparse_set::SparseSet;
use ecs_core::unique_storage::UniqueStorage;

#[derive(PartialEq, Eq, Debug)]
struct A(u32);

impl Component for A {}

#[derive(PartialEq, Eq, Debug)]
struct B(u32);

impl Component for B {}

const THREAD: u64 = 0;

#[test]
fn borrow_conflict_and_release() {
    let mut registry = StorageRegistry::new();
    let storage_a = 1u64;

    // insert-or-get creates the storage's cell on first use
    let unique = registry
        .try_borrow_storage_or_insert(storage_a, None, true, true, THREAD)
        .unwrap();
    assert_eq!(unique, Borrow::Unique);

    // a shared borrow while the exclusive one is live is refused
    assert!(matches!(
        registry.try_borrow_storage(storage_a, THREAD),
        Err(StorageError::StorageBorrow(_))
    ));

    // dropping the first borrow lets the second through
    registry.release_storage(storage_a, unique);
    let shared = registry.try_borrow_storage(storage_a, THREAD).unwrap();
    assert_eq!(shared, Borrow::Shared);
    registry.release_storage(storage_a, shared);
}

#[test]
fn missing_storage_is_reported() {
    let mut registry = StorageRegistry::new();
    assert_eq!(
        registry.try_borrow_storage(42, THREAD),
        Err(StorageError::MissingStorage)
    );
    assert_eq!(
        registry.try_borrow_storage_mut(42, THREAD),
        Err(StorageError::MissingStorage)
    );
}

#[test]
fn registration_is_insert_or_get() {
    let mut registry = StorageRegistry::new();
    assert!(registry.register_storage(7, None, true));
    assert!(!registry.register_storage(7, None, true));

    // two different storages get independent cells
    assert!(registry.register_storage(8, None, true));
    let a = registry.try_borrow_storage_mut(7, THREAD).unwrap();
    let b = registry.try_borrow_storage_mut(8, THREAD).unwrap();
    registry.release_storage(7, a);
    registry.release_storage(8, b);
}

#[test]
fn clock_ticks_monotonically() {
    let mut registry = StorageRegistry::new();
    let first = registry.get_current();
    let second = registry.get_current();
    assert_eq!(second, first.wrapping_add(1));
    assert_eq!(registry.get_tracking_timestamp().0, second.wrapping_add(1));
}

#[test]
fn move_component_between_worlds() {
    let mut source_entities = Entities::new();
    let mut dest_entities = Entities::new();
    let mut source: SparseSet<A> = SparseSet::new();
    let mut dest: SparseSet<A> = SparseSet::new();

    let e = source_entities.generate();
    source.insert(e, A(1), 0);

    let e2 = dest_entities.generate();
    move_component(e, &mut source, e2, &mut dest, 1);

    assert!(!source.contains(e));
    assert_eq!(dest.private_get(e2), Some(&A(1)));

    // moving an absent component changes nothing
    move_component(e, &mut source, e2, &mut dest, 2);
    assert_eq!(dest.private_get(e2), Some(&A(1)));
}

#[test]
fn unique_storage_round_trip() {
    let mut unique = UniqueStorage::new(A(3), 9);
    assert_eq!(unique.get(), &A(3));
    assert_eq!(unique.insert, 9);

    *unique.get_mut() = A(4);
    assert_eq!(unique.into_value(), A(4));
}

#[test]
fn compound_borrow_acquires_left_to_right() {
    let mut registry = StorageRegistry::new();
    registry.register_storage(1, None, true);
    registry.register_storage(2, None, true);

    // a mixed borrow set over two different storages goes through
    let requests = vec![
        StorageAccess { storage: 1, exclusive: true },
        StorageAccess { storage: 2, exclusive: false },
    ];
    let tokens = registry.try_borrow_all(&requests, THREAD).unwrap();
    assert_eq!(tokens.len(), 2);
    for (request, token) in requests.iter().zip(tokens) {
        registry.release_storage(request.storage, token);
    }
}

#[test]
fn compound_borrow_rolls_back_on_failure() {
    let mut registry = StorageRegistry::new();
    registry.register_storage(1, None, true);
    registry.register_storage(2, None, true);

    // the second member conflicts with the first: the whole set fails and
    // the first borrow is released again
    let requests = vec![
        StorageAccess { storage: 2, exclusive: false },
        StorageAccess { storage: 1, exclusive: false },
        StorageAccess { storage: 1, exclusive: true },
    ];
    let (failed_index, error) = registry.try_borrow_all(&requests, THREAD).unwrap_err();
    assert_eq!(failed_index, 2);
    assert!(matches!(error, StorageError::StorageBorrow(_)));

    // every cell is free again, so an exclusive borrow of each succeeds
    let one = registry.try_borrow_storage_mut(1, THREAD).unwrap();
    let two = registry.try_borrow_storage_mut(2, THREAD).unwrap();
    registry.release_storage(1, one);
    registry.release_storage(2, two);
}
