use ecs_core::add_entity::AddEntity;
use ecs_core::component::Component;
use ecs_core::error::StorageError;
use ecs_core::entity_id::EntityId;
use ecs_core::sparse_set::SparseSet;

#[derive(PartialEq, Eq, Debug)]
struct STR(&'static str);

impl Component for STR {}

#[derive(PartialEq, Eq, PartialOrd, Ord, Debug)]
struct I32(i32);

impl Component for I32 {}

#[test]
fn insert() {
    let mut array = SparseSet::new();

    assert!(array
        .insert(EntityId::new_from_parts(0, 0), STR("0"), 0)
        .is_none());
    assert_eq!(array.dense, &[EntityId::new_from_parts(0, 0)]);
    assert_eq!(array.data, &[STR("0")]);
    assert_eq!(
        array.private_get(EntityId::new_from_parts(0, 0)),
        Some(&STR("0"))
    );

    assert!(array
        .insert(EntityId::new_from_parts(1, 0), STR("1"), 0)
        .is_none());
    assert_eq!(
        array.dense,
        &[
            EntityId::new_from_parts(0, 0),
            EntityId::new_from_parts(1, 0)
        ]
    );
    assert_eq!(array.data, &[STR("0"), STR("1")]);
    assert_eq!(
        array.private_get(EntityId::new_from_parts(0, 0)),
        Some(&STR("0"))
    );
    assert_eq!(
        array.private_get(EntityId::new_from_parts(1, 0)),
        Some(&STR("1"))
    );

    assert!(array
        .insert(EntityId::new_from_parts(5, 0), STR("5"), 0)
        .is_none());
    assert_eq!(
        array.dense,
        &[
            EntityId::new_from_parts(0, 0),
            EntityId::new_from_parts(1, 0),
            EntityId::new_from_parts(5, 0)
        ]
    );
    assert_eq!(array.data, &[STR("0"), STR("1"), STR("5")]);
    assert_eq!(
        array.private_get(EntityId::new_from_parts(5, 0)),
        Some(&STR("5"))
    );

    assert_eq!(array.private_get(EntityId::new_from_parts(4, 0)), None);
}

#[test]
fn remove() {
    let mut array = SparseSet::new();
    array.insert(EntityId::new_from_parts(0, 0), STR("0"), 0);
    array.insert(EntityId::new_from_parts(5, 0), STR("5"), 0);
    array.insert(EntityId::new_from_parts(10, 0), STR("10"), 0);

    assert_eq!(
        array.dyn_remove(EntityId::new_from_parts(0, 0), 0),
        Some(STR("0")),
    );
    assert_eq!(
        array.dense,
        &[
            EntityId::new_from_parts(10, 0),
            EntityId::new_from_parts(5, 0)
        ]
    );
    assert_eq!(array.data, &[STR("10"), STR("5")]);
    assert_eq!(array.private_get(EntityId::new_from_parts(0, 0)), None);
    assert_eq!(
        array.private_get(EntityId::new_from_parts(5, 0)),
        Some(&STR("5"))
    );
    assert_eq!(
        array.private_get(EntityId::new_from_parts(10, 0)),
        Some(&STR("10"))
    );

    array.insert(EntityId::new_from_parts(3, 0), STR("3"), 0);
    array.insert(EntityId::new_from_parts(100, 0), STR("100"), 0);
    assert_eq!(
        array.dense,
        &[
            EntityId::new_from_parts(10, 0),
            EntityId::new_from_parts(5, 0),
            EntityId::new_from_parts(3, 0),
            EntityId::new_from_parts(100, 0)
        ]
    );
    assert_eq!(array.data, &[STR("10"), STR("5"), STR("3"), STR("100")]);
    assert_eq!(array.private_get(EntityId::new_from_parts(0, 0)), None);
    assert_eq!(
        array.private_get(EntityId::new_from_parts(3, 0)),
        Some(&STR("3"))
    );
    assert_eq!(
        array.private_get(EntityId::new_from_parts(5, 0)),
        Some(&STR("5"))
    );
    assert_eq!(
        array.private_get(EntityId::new_from_parts(10, 0)),
        Some(&STR("10"))
    );
    assert_eq!(
        array.private_get(EntityId::new_from_parts(100, 0)),
        Some(&STR("100"))
    );

    assert_eq!(
        array.dyn_remove(EntityId::new_from_parts(3, 0), 0),
        Some(STR("3")),
    );
    assert_eq!(
        array.dense,
        &[
            EntityId::new_from_parts(10, 0),
            EntityId::new_from_parts(5, 0),
            EntityId::new_from_parts(100, 0)
        ]
    );
    assert_eq!(array.data, &[STR("10"), STR("5"), STR("100")]);
    assert_eq!(array.private_get(EntityId::new_from_parts(0, 0)), None);
    assert_eq!(array.private_get(EntityId::new_from_parts(3, 0)), None);
    assert_eq!(
        array.private_get(EntityId::new_from_parts(5, 0)),
        Some(&STR("5"))
    );
    assert_eq!(
        array.private_get(EntityId::new_from_parts(10, 0)),
        Some(&STR("10"))
    );
    assert_eq!(
        array.private_get(EntityId::new_from_parts(100, 0)),
        Some(&STR("100"))
    );

    assert_eq!(
        array.dyn_remove(EntityId::new_from_parts(100, 0), 0),
        Some(STR("100"))
    );
    assert_eq!(
        array.dense,
        &[
            EntityId::new_from_parts(10, 0),
            EntityId::new_from_parts(5, 0)
        ]
    );
    assert_eq!(array.data, &[STR("10"), STR("5")]);
    assert_eq!(array.private_get(EntityId::new_from_parts(0, 0)), None);
    assert_eq!(array.private_get(EntityId::new_from_parts(3, 0)), None);
    assert_eq!(
        array.private_get(EntityId::new_from_parts(5, 0)),
        Some(&STR("5"))
    );
    assert_eq!(
        array.private_get(EntityId::new_from_parts(10, 0)),
        Some(&STR("10"))
    );
    assert_eq!(array.private_get(EntityId::new_from_parts(100, 0)), None);
}

#[test]
fn drain() {
    let mut sparse_set = SparseSet::new();

    sparse_set.insert(EntityId::new(0), I32(0), 0);
    sparse_set.insert(EntityId::new(1), I32(1), 0);

    let mut drain = sparse_set.private_drain(0);

    assert_eq!(drain.next(), Some(I32(0)));
    assert_eq!(drain.next(), Some(I32(1)));
    assert_eq!(drain.next(), None);

    drop(drain);

    assert_eq!(sparse_set.len(), 0);
    assert_eq!(sparse_set.private_get(EntityId::new(0)), None);
}

#[test]
fn drain_with_id() {
    let mut sparse_set = SparseSet::new();

    sparse_set.insert(EntityId::new(0), I32(0), 0);
    sparse_set.insert(EntityId::new(1), I32(1), 0);

    let mut drain = sparse_set.private_drain(0).with_id();

    assert_eq!(drain.next(), Some((EntityId::new(0), I32(0))));
    assert_eq!(drain.next(), Some((EntityId::new(1), I32(1))));
    assert_eq!(drain.next(), None);

    drop(drain);

    assert_eq!(sparse_set.len(), 0);
    assert_eq!(sparse_set.private_get(EntityId::new(0)), None);
}

#[test]
fn drain_empty() {
    let mut sparse_set = SparseSet::<I32>::new();

    assert_eq!(sparse_set.private_drain(0).next(), None);
    assert_eq!(sparse_set.private_drain(0).with_id().next(), None);

    assert_eq!(sparse_set.len(), 0);
}

#[test]
fn unstable_sort() {
    let mut array = SparseSet::new();

    for i in (0..100).rev() {
        let mut entity_id = EntityId::zero();
        entity_id.set_index(100 - i);
        array.insert(entity_id, I32(i as i32), 0);
    }

    array.sort_unstable_by(|a: &I32, b: &I32| a.cmp(b));

    for window in array.data.windows(2) {
        assert!(window[0] < window[1]);
    }
    for i in 0..100 {
        let mut entity_id = EntityId::zero();
        entity_id.set_index(100 - i);
        assert_eq!(array.private_get(entity_id), Some(&I32(i as i32)));
    }
}

#[test]
fn partially_sorted_unstable_sort() {
    let mut array = SparseSet::new();

    for i in 0..20 {
        let mut entity_id = EntityId::zero();
        entity_id.set_index(i);
        assert!(array.insert(entity_id, I32(i as i32), 0).is_none());
    }
    for i in (20..100).rev() {
        let mut entity_id = EntityId::zero();
        entity_id.set_index(100 - i + 20);
        assert!(array.insert(entity_id, I32(i as i32), 0).is_none());
    }

    array.sort_unstable_by(|a: &I32, b: &I32| a.cmp(b));

    for window in array.data.windows(2) {
        assert!(window[0] < window[1]);
    }
    for i in 0..20 {
        let mut entity_id = EntityId::zero();
        entity_id.set_index(i);
        assert_eq!(array.private_get(entity_id), Some(&I32(i as i32)));
    }
    for i in 20..100 {
        let mut entity_id = EntityId::zero();
        entity_id.set_index(100 - i + 20);
        assert_eq!(array.private_get(entity_id), Some(&I32(i as i32)));
    }
}

#[test]
fn debug() {
    let mut sparse_set = SparseSet::new();

    sparse_set.insert(EntityId::new(0), STR("0"), 0);
    sparse_set.insert(EntityId::new(5), STR("5"), 0);
    sparse_set.insert(EntityId::new(10), STR("10"), 0);

    println!("{:#?}", sparse_set);
}

#[test]
fn multiple_enable_tracking() {
    let mut sparse_set = SparseSet::new();

    sparse_set.insert(EntityId::new_from_parts(0, 0), I32(0), 0);

    sparse_set.track_all();
    sparse_set.track_all();
    sparse_set.track_all();

    assert_eq!(sparse_set.insertion_data.len(), 1);
    assert_eq!(sparse_set.modification_data.len(), 1);
}

#[test]
fn fast_iteration_walks_dense_order() {
    let mut sparse_set = SparseSet::new();
    sparse_set.insert(EntityId::new(0), I32(10), 0);
    sparse_set.insert(EntityId::new(3), I32(30), 0);
    sparse_set.insert(EntityId::new(7), I32(70), 0);

    let mut iter = sparse_set.try_fast_iter().unwrap();
    let mut seen = Vec::new();
    while let Some(position) = iter.next() {
        let id = sparse_set.id_at(position).unwrap();
        seen.push((id, sparse_set.as_slice()[position].0));
    }
    assert_eq!(
        seen,
        vec![
            (EntityId::new(0), 10),
            (EntityId::new(3), 30),
            (EntityId::new(7), 70)
        ]
    );

    // a storage that stamps modifications refuses fast iteration
    sparse_set.track_modification();
    assert!(sparse_set.try_fast_iter().is_none());
}

#[test]
fn lookups_agree() {
    let mut sparse_set = SparseSet::new();
    let present = EntityId::new_from_parts(2, 1);
    let absent = EntityId::new_from_parts(9, 0);
    let stale = EntityId::new_from_parts(2, 0);
    sparse_set.insert(present, I32(5), 0);

    // index_of finds a position exactly when contains holds, exactly when
    // a component comes back
    for id in [present, absent, stale] {
        assert_eq!(sparse_set.index_of(id).is_some(), sparse_set.contains(id));
        assert_eq!(sparse_set.contains(id), sparse_set.private_get(id).is_some());
    }
    assert!(sparse_set.contains(present));
    assert!(!sparse_set.contains(absent));
    assert!(!sparse_set.contains(stale));
}

#[test]
fn dense_and_sparse_stay_linked() {
    let mut sparse_set = SparseSet::new();
    for i in 0..10u64 {
        sparse_set.insert(EntityId::new_from_parts(i, 0), I32(i as i32), 0);
    }
    sparse_set.dyn_remove(EntityId::new_from_parts(3, 0), 0);
    sparse_set.dyn_delete(EntityId::new_from_parts(0, 0), 0);
    sparse_set.insert(EntityId::new_from_parts(12, 0), I32(12), 0);

    // every dense entry's sparse entry points back at its position
    for position in 0..sparse_set.len() {
        let id = sparse_set.id_at(position).unwrap();
        assert_eq!(sparse_set.index_of(id), Some(position));
    }
}

#[test]
fn apply_combines_two_components() {
    let mut sparse_set = SparseSet::new();
    let e1 = EntityId::new_from_parts(0, 0);
    let e2 = EntityId::new_from_parts(1, 0);
    sparse_set.track_modification();
    sparse_set.insert(e1, I32(10), 0);
    sparse_set.insert(e2, I32(3), 0);

    // move e2's value into e1's, leaving e2 at zero
    let taken = sparse_set
        .private_apply_mut(e1, e2, |x: I32, y: I32| (I32(x.0 + y.0), I32(0), y.0), 7)
        .unwrap();
    assert_eq!(taken, 3);
    assert_eq!(sparse_set.private_get(e1), Some(&I32(13)));
    assert_eq!(sparse_set.private_get(e2), Some(&I32(0)));
    assert_eq!(sparse_set.modification_data, vec![7u32, 7u32]);

    // read-only second operand: only the first is stamped
    let seen = sparse_set
        .private_apply(e1, e2, |x: I32, y: &I32| (I32(x.0 - y.0), x.0), 9)
        .unwrap();
    assert_eq!(seen, 13);
    assert_eq!(sparse_set.private_get(e1), Some(&I32(13)));
    assert_eq!(sparse_set.modification_data, vec![9u32, 7u32]);
}

#[test]
fn apply_refuses_missing_and_identical() {
    let mut sparse_set = SparseSet::new();
    let e1 = EntityId::new_from_parts(0, 0);
    let absent = EntityId::new_from_parts(9, 0);
    sparse_set.insert(e1, I32(1), 0);

    assert_eq!(
        sparse_set.private_apply_mut(e1, absent, |x: I32, y: I32| (x, y, ()), 0),
        Err(StorageError::MissingComponent)
    );
    assert_eq!(
        sparse_set.private_apply_mut(e1, e1, |x: I32, y: I32| (x, y, ()), 0),
        Err(StorageError::IdenticalIds)
    );
    assert_eq!(
        sparse_set.private_apply(absent, e1, |x: I32, _y: &I32| (x, ()), 0),
        Err(StorageError::MissingComponent)
    );
    assert_eq!(sparse_set.private_get(e1), Some(&I32(1)));
}

#[test]
fn bundles_store_every_member() {
    let e = EntityId::new_from_parts(4, 0);

    let mut single = SparseSet::new();
    single.add_entity(e, I32(5), 0);
    assert_eq!(single.private_get(e), Some(&I32(5)));

    let mut pair = (SparseSet::new(), SparseSet::new());
    pair.add_entity(e, (I32(6), STR("six")), 0);
    assert_eq!(pair.0.private_get(e), Some(&I32(6)));
    assert_eq!(pair.1.private_get(e), Some(&STR("six")));

    let mut triple = (SparseSet::new(), SparseSet::new(), ());
    triple.add_entity(e, (I32(7), STR("seven"), ()), 0);
    assert_eq!(triple.0.private_get(e), Some(&I32(7)));
    assert_eq!(triple.1.private_get(e), Some(&STR("seven")));
}
