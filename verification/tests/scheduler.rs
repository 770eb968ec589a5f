use ecs_core::scheduler::{
    plan_batches, Scheduler, StorageAccess, SystemInfo,
};

fn system(borrows: Vec<StorageAccess>) -> SystemInfo {
    SystemInfo { borrows, is_thread_local: false }
}

fn exclusive(storage: u64) -> StorageAccess {
    StorageAccess { storage, exclusive: true }
}

fn shared(storage: u64) -> StorageAccess {
    StorageAccess { storage, exclusive: false }
}

#[test]
fn batches_split_on_exclusive_conflict() {
    // X takes A exclusively, Y takes B exclusively, Z takes A exclusively:
    // X and Y run together, Z waits for the next batch
    let storage_a = 1u64;
    let storage_b = 2u64;
    let systems = vec![
        system(vec![exclusive(storage_a)]),
        system(vec![exclusive(storage_b)]),
        system(vec![exclusive(storage_a)]),
    ];

    let batches = plan_batches(&systems);
    assert_eq!(batches.sequential, vec![0, 1, 2]);
    assert_eq!(batches.parallel.len(), 2);
    assert_eq!(batches.parallel[0].anchor, None);
    assert_eq!(batches.parallel[0].parallel, vec![0, 1]);
    assert_eq!(batches.parallel[1].parallel, vec![2]);
}

#[test]
fn shared_borrows_of_one_storage_coexist() {
    let storage_a = 1u64;
    let systems = vec![
        system(vec![shared(storage_a)]),
        system(vec![shared(storage_a)]),
        system(vec![exclusive(storage_a)]),
        system(vec![shared(storage_a)]),
    ];

    let batches = plan_batches(&systems);
    assert_eq!(batches.parallel.len(), 3);
    assert_eq!(batches.parallel[0].parallel, vec![0, 1]);
    assert_eq!(batches.parallel[1].parallel, vec![2]);
    assert_eq!(batches.parallel[2].parallel, vec![3]);
}

#[test]
fn thread_local_system_anchors_its_batch() {
    let storage_a = 1u64;
    let storage_b = 2u64;
    let systems = vec![
        system(vec![exclusive(storage_a)]),
        SystemInfo { borrows: vec![exclusive(storage_b)], is_thread_local: true },
        SystemInfo { borrows: vec![shared(3)], is_thread_local: true },
    ];

    let batches = plan_batches(&systems);
    // the first thread-bound system joins the open batch as its anchor;
    // the second must open a new batch: one anchor per batch
    assert_eq!(batches.parallel.len(), 2);
    assert_eq!(batches.parallel[0].anchor, Some(1));
    assert_eq!(batches.parallel[0].parallel, vec![0]);
    assert_eq!(batches.parallel[1].anchor, Some(2));
}

#[test]
fn batch_members_have_disjoint_exclusive_borrows() {
    // no storage id may be held exclusively by two members of one batch
    let systems = vec![
        system(vec![exclusive(1), shared(2)]),
        system(vec![shared(2), exclusive(3)]),
        system(vec![shared(1)]),
        system(vec![exclusive(2)]),
        system(vec![shared(3), shared(2)]),
    ];

    let batches = plan_batches(&systems);
    for batch in &batches.parallel {
        let mut members: Vec<usize> = batch.parallel.clone();
        if let Some(anchor) = batch.anchor {
            members.push(anchor);
        }
        for (i, a) in members.iter().enumerate() {
            for b in &members[i + 1..] {
                for x in &systems[*a].borrows {
                    for y in &systems[*b].borrows {
                        if x.storage == y.storage {
                            assert!(!x.exclusive && !y.exclusive);
                        }
                    }
                }
            }
        }
    }
}

#[test]
fn workload_execution_order_follows_batches() {
    // X writes, Y writes elsewhere, Z reads what X wrote: Z runs in a later
    // batch and observes X's effect
    let storage_a = 1u64;
    let storage_b = 2u64;
    let systems = vec![
        system(vec![exclusive(storage_a)]),
        system(vec![exclusive(storage_b)]),
        system(vec![exclusive(storage_a)]),
    ];
    let batches = plan_batches(&systems);

    let mut value_a = 0i32;
    let mut value_b = 0i32;
    let mut runs = vec![0u32; 3];
    let mut z_saw = None;
    for batch in &batches.parallel {
        let mut members: Vec<usize> = batch.parallel.clone();
        if let Some(anchor) = batch.anchor {
            members.push(anchor);
        }
        for index in members {
            runs[index] += 1;
            match index {
                0 => value_a = 10,
                1 => value_b = 20,
                2 => z_saw = Some(value_a),
                _ => unreachable!(),
            }
        }
    }
    assert_eq!(runs, vec![1, 1, 1]);
    assert_eq!(z_saw, Some(10));
    assert_eq!(value_b, 20);
}

#[test]
fn workload_registry() {
    let mut scheduler = Scheduler::new();
    assert!(scheduler.is_empty());

    let systems = vec![system(vec![exclusive(1)])];
    assert!(scheduler.add_workload(String::from("foo"), &systems).is_ok());

    assert!(scheduler.contains_workload("foo"));
    assert!(!scheduler.contains_workload("bar"));
    assert!(scheduler.workload("foo").is_some());
    assert!(scheduler.workload("bar").is_none());
    assert!(scheduler.add_workload(String::from("foo"), &systems).is_err());

    assert!(scheduler.set_default("foo").is_ok());
    assert!(scheduler.default_workload().is_some());
    assert!(scheduler.set_default("bar").is_err());

    assert!(scheduler.rename("foo", String::from("baz")));
    assert!(!scheduler.contains_workload("foo"));
    assert!(scheduler.contains_workload("baz"));
    // the default is tracked by index and survives the rename
    assert!(scheduler.default_workload().is_some());

    assert!(!scheduler.rename("foo", String::from("qux")));
}
