//! The workload scheduler: batching systems by borrow-set disjointness, and
//! the registry of named workloads.
//!
//! A system is described by its borrow set: the storages it will borrow and
//! whether each borrow is exclusive, plus whether the system is bound to the
//! calling thread. Systems are packed greedily into parallel batches: a
//! system joins the current batch exactly when its borrow set is compatible
//! with every system already there (no storage is taken exclusively by both
//! sides), and a thread-bound system additionally requires the batch to have
//! no thread-bound member yet — it becomes the batch's serial anchor.
//!
//! Named workloads are kept in a registry with constant-time lookup; one of
//! them may be marked as the default.

use crate::error::WorkloadError;
use vstd::prelude::*;

verus! {

/// One entry of a borrow set: which storage, and whether the access is
/// exclusive.
#[derive(Clone, Copy, PartialEq, Eq, Structural, Debug)]
pub struct StorageAccess {
    /// The id of the borrowed storage.
    pub storage: u64,
    /// Whether the borrow is exclusive.
    pub exclusive: bool,
}

/// What the scheduler knows about one system: its borrow set, in the order
/// the borrows are acquired, and whether it must run on the calling thread.
pub struct SystemInfo {
    /// The storages the system borrows.
    pub borrows: Vec<StorageAccess>,
    /// Whether the system is bound to the workload's calling thread.
    pub is_thread_local: bool,
}

/// One parallel batch: the indexes of the systems that may run
/// concurrently, plus at most one thread-bound system that runs on the
/// calling thread.
pub struct Batch {
    /// The thread-bound member, if any.
    pub anchor: Option<usize>,
    /// The members that may run on any worker.
    pub parallel: Vec<usize>,
}

/// The analyzed form of a workload: its batches in execution order, and the
/// flat system order used when running without parallelism.
pub struct Batches {
    /// The parallel batches, in order; all effects of a batch happen before
    /// the next one starts.
    pub parallel: Vec<Batch>,
    /// All system indexes in declaration order.
    pub sequential: Vec<usize>,
}

/// Two single borrows may be held at the same time unless they name the
/// same storage and either of them is exclusive.
pub open spec fn accesses_compatible(a: StorageAccess, b: StorageAccess) -> bool {
    a.storage == b.storage ==> (!a.exclusive && !b.exclusive)
}

/// Two borrow sets are compatible when every pair of their entries is: no
/// storage id is held exclusively by either side while the other touches
/// it.
pub open spec fn systems_compatible(a: &SystemInfo, b: &SystemInfo) -> bool {
    forall|x: int, y: int|
        0 <= x < a.borrows@.len() && 0 <= y < b.borrows@.len() ==> accesses_compatible(
            #[trigger] a.borrows@[x],
            #[trigger] b.borrows@[y],
        )
}

/// The members of a batch as one sequence: the anchor, then the parallel
/// members in order.
pub open spec fn batch_members(b: Batch) -> Seq<usize> {
    match b.anchor {
        Option::Some(a) => seq![a] + b.parallel@,
        Option::None => b.parallel@,
    }
}

/// Whether system index `i` stands in some batch.
pub open spec fn member_occurs(batches: Seq<Batch>, i: usize) -> bool {
    exists|j: int, k: int|
        0 <= j < batches.len() && 0 <= k < batch_members(batches[j]).len() && #[trigger] batch_members(
            batches[j],
        )[k] == i
}

/// Every member of every batch is below `bound`.
pub open spec fn all_members_below(batches: Seq<Batch>, bound: int) -> bool {
    forall|j: int, k: int|
        0 <= j < batches.len() && 0 <= k < batch_members(batches[j]).len() ==> (#[trigger] batch_members(
            batches[j],
        )[k] as int) < bound
}

/// No system index stands in two places.
pub open spec fn members_injective(batches: Seq<Batch>) -> bool {
    forall|j1: int, k1: int, j2: int, k2: int|
        0 <= j1 < batches.len() && 0 <= k1 < batch_members(batches[j1]).len() && 0 <= j2
            < batches.len() && 0 <= k2 < batch_members(batches[j2]).len()
            && #[trigger] batch_members(batches[j1])[k1] == #[trigger] batch_members(
            batches[j2],
        )[k2] ==> j1 == j2 && k1 == k2
}

/// The borrow sets of any two distinct members of any one batch are
/// compatible.
pub open spec fn batches_compatible(batches: Seq<Batch>, systems: Seq<SystemInfo>) -> bool {
    forall|j: int, k1: int, k2: int|
        0 <= j < batches.len() && 0 <= k1 < batch_members(batches[j]).len() && 0 <= k2
            < batch_members(batches[j]).len() && k1 != k2 && #[trigger] batch_members(
            batches[j],
        )[k1] < systems.len() && #[trigger] batch_members(batches[j])[k2] < systems.len()
            ==> systems_compatible(
            &systems[batch_members(batches[j])[k1] as int],
            &systems[batch_members(batches[j])[k2] as int],
        )
}

/// Returns whether the borrow sets of `a` and `b` are compatible.
pub fn check_systems_compatible(a: &SystemInfo, b: &SystemInfo) -> (r: bool)
    ensures
        r == systems_compatible(a, b),
{
    let mut x: usize = 0;
    let a_len = a.borrows.len();
    let b_len = b.borrows.len();
    while x < a_len
        invariant
            x <= a_len,
            a_len == a.borrows@.len(),
            b_len == b.borrows@.len(),
            forall|p: int, q: int|
                0 <= p < x && 0 <= q < b.borrows@.len() ==> accesses_compatible(
                    #[trigger] a.borrows@[p],
                    #[trigger] b.borrows@[q],
                ),
        decreases a_len - x,
    {
        let mut y: usize = 0;
        while y < b_len
            invariant
                y <= b_len,
                x < a_len,
                a_len == a.borrows@.len(),
                b_len == b.borrows@.len(),
                forall|q: int|
                    0 <= q < y ==> accesses_compatible(
                        a.borrows@[x as int],
                        #[trigger] b.borrows@[q],
                    ),
            decreases b_len - y,
        {
            let ea = a.borrows[x];
            let eb = b.borrows[y];
            if ea.storage == eb.storage && (ea.exclusive || eb.exclusive) {
                return false;
            }
            y += 1;
        }
        x += 1;
    }
    true
}


/// Every member of `b` is below `bound`.
pub open spec fn batch_below(b: Batch, bound: int) -> bool {
    forall|k: int|
        0 <= k < batch_members(b).len() ==> (#[trigger] batch_members(b)[k] as int) < bound
}

/// Borrow-set compatibility does not depend on the order of the two
/// systems.
proof fn lemma_systems_compatible_symmetric(a: &SystemInfo, b: &SystemInfo)
    ensures
        systems_compatible(a, b) == systems_compatible(b, a),
{
    if systems_compatible(a, b) {
        assert forall|x: int, y: int|
            0 <= x < b.borrows@.len() && 0 <= y < a.borrows@.len() implies accesses_compatible(
            #[trigger] b.borrows@[x],
            #[trigger] a.borrows@[y],
        ) by {
            assert(accesses_compatible(a.borrows@[y], b.borrows@[x]));
        }
    }
    if systems_compatible(b, a) {
        assert forall|x: int, y: int|
            0 <= x < a.borrows@.len() && 0 <= y < b.borrows@.len() implies accesses_compatible(
            #[trigger] a.borrows@[x],
            #[trigger] b.borrows@[y],
        ) by {
            assert(accesses_compatible(b.borrows@[y], a.borrows@[x]));
        }
    }
}

/// Adding system `i` as one more member of batch `j0` — at the front as
/// its anchor, or at the back of its parallel list — preserves the batching
/// invariants, provided `i` is larger than every member so far and its
/// borrow set is compatible with each member of that batch.
proof fn lemma_member_added(
    pre: Seq<Batch>,
    post: Seq<Batch>,
    j0: int,
    i: usize,
    systems: Seq<SystemInfo>,
    at_front: bool,
)
    requires
        0 <= j0 < pre.len(),
        post.len() == pre.len(),
        forall|j: int| 0 <= j < pre.len() && j != j0 ==> post[j] == pre[j],
        batch_members(post[j0]) == if at_front {
            seq![i] + batch_members(pre[j0])
        } else {
            batch_members(pre[j0]).push(i)
        },
        all_members_below(pre, i as int),
        members_injective(pre),
        batches_compatible(pre, systems),
        (i as int) < systems.len(),
        forall|k: int|
            0 <= k < batch_members(pre[j0]).len() ==> systems_compatible(
                &systems[#[trigger] batch_members(pre[j0])[k] as int],
                &systems[i as int],
            ),
    ensures
        all_members_below(post, i + 1),
        members_injective(post),
        batches_compatible(post, systems),
        member_occurs(post, i),
        forall|x: usize| member_occurs(pre, x) ==> member_occurs(post, x),
{
    let old_members = batch_members(pre[j0]);
    let new_members = batch_members(post[j0]);
    let new_pos: int = if at_front {
        0
    } else {
        old_members.len() as int
    };
    assert(new_members[new_pos] == i);
    assert forall|k: int| 0 <= k < new_members.len() && k != new_pos implies new_members[k]
        == old_members[if at_front {
        k - 1
    } else {
        k
    }] && (new_members[k] as int) < i by {}
    assert forall|j: int, k: int|
        0 <= j < post.len() && 0 <= k < batch_members(post[j]).len() implies (
    #[trigger] batch_members(post[j])[k] as int) < i + 1 by {
        if j != j0 {
            assert(post[j] == pre[j]);
        }
    }
    assert forall|j1: int, k1: int, j2: int, k2: int|
        0 <= j1 < post.len() && 0 <= k1 < batch_members(post[j1]).len() && 0 <= j2 < post.len()
            && 0 <= k2 < batch_members(post[j2]).len() && #[trigger] batch_members(post[j1])[k1]
            == #[trigger] batch_members(post[j2])[k2] implies j1 == j2 && k1 == k2 by {
        let v = batch_members(post[j1])[k1];
        let new1 = j1 == j0 && k1 == new_pos;
        let new2 = j2 == j0 && k2 == new_pos;
        if new1 && new2 {
        } else if new1 {
            if j2 != j0 {
                assert(batch_members(post[j2]) == batch_members(pre[j2]));
            }
            assert((v as int) < i);
        } else if new2 {
            if j1 != j0 {
                assert(batch_members(post[j1]) == batch_members(pre[j1]));
            }
            assert((v as int) < i);
        } else {
            let p1: int = if j1 == j0 && at_front {
                k1 - 1
            } else {
                k1
            };
            let p2: int = if j2 == j0 && at_front {
                k2 - 1
            } else {
                k2
            };
            if j1 != j0 {
                assert(batch_members(post[j1]) == batch_members(pre[j1]));
            }
            if j2 != j0 {
                assert(batch_members(post[j2]) == batch_members(pre[j2]));
            }
            assert(batch_members(pre[j1])[p1] == v);
            assert(batch_members(pre[j2])[p2] == v);
            assert(j1 == j2 && p1 == p2);
        }
    }
    assert forall|j: int, k1: int, k2: int|
        0 <= j < post.len() && 0 <= k1 < batch_members(post[j]).len() && 0 <= k2 < batch_members(
            post[j],
        ).len() && k1 != k2 && #[trigger] batch_members(post[j])[k1] < systems.len()
            && #[trigger] batch_members(post[j])[k2] < systems.len() implies systems_compatible(
        &systems[batch_members(post[j])[k1] as int],
        &systems[batch_members(post[j])[k2] as int],
    ) by {
        if j != j0 {
            assert(batch_members(post[j]) == batch_members(pre[j]));
        } else {
            let v1 = batch_members(post[j])[k1];
            let v2 = batch_members(post[j])[k2];
            let new1 = k1 == new_pos;
            let new2 = k2 == new_pos;
            if new1 {
                let p2: int = if at_front {
                    k2 - 1
                } else {
                    k2
                };
                assert(v2 == old_members[p2]);
                assert(systems_compatible(&systems[v2 as int], &systems[i as int]));
                lemma_systems_compatible_symmetric(&systems[v2 as int], &systems[i as int]);
            } else if new2 {
                let p1: int = if at_front {
                    k1 - 1
                } else {
                    k1
                };
                assert(v1 == old_members[p1]);
                assert(systems_compatible(&systems[v1 as int], &systems[i as int]));
            } else {
                let p1: int = if at_front {
                    k1 - 1
                } else {
                    k1
                };
                let p2: int = if at_front {
                    k2 - 1
                } else {
                    k2
                };
                assert(old_members[p1] == v1 && old_members[p2] == v2);
                assert(systems_compatible(&systems[v1 as int], &systems[v2 as int]));
            }
        }
    }
    assert(member_occurs(post, i)) by {
        assert(batch_members(post[j0])[new_pos] == i);
    }
    assert forall|x: usize| member_occurs(pre, x) implies member_occurs(post, x) by {
        let (j, k): (int, int) = choose|j: int, k: int|
            0 <= j < pre.len() && 0 <= k < batch_members(pre[j]).len() && #[trigger] batch_members(
                pre[j],
            )[k] == x;
        if j == j0 {
            let kp: int = if at_front {
                k + 1
            } else {
                k
            };
            assert(batch_members(post[j])[kp] == x);
        } else {
            assert(batch_members(post[j])[k] == x);
        }
    }
}

/// Opening a new batch whose only member is `i` preserves the batching
/// invariants.
proof fn lemma_batch_appended(pre: Seq<Batch>, post: Seq<Batch>, i: usize, systems: Seq<SystemInfo>)
    requires
        post.len() == pre.len() + 1,
        forall|j: int| 0 <= j < pre.len() ==> post[j] == pre[j],
        batch_members(post[pre.len() as int]) == seq![i],
        all_members_below(pre, i as int),
        members_injective(pre),
        batches_compatible(pre, systems),
    ensures
        all_members_below(post, i + 1),
        members_injective(post),
        batches_compatible(post, systems),
        member_occurs(post, i),
        forall|x: usize| member_occurs(pre, x) ==> member_occurs(post, x),
{
    let j0 = pre.len() as int;
    assert(batch_members(post[j0])[0] == i);
    assert forall|j: int, k: int|
        0 <= j < post.len() && 0 <= k < batch_members(post[j]).len() implies (
    #[trigger] batch_members(post[j])[k] as int) < i + 1 by {
        if j < j0 {
            assert(post[j] == pre[j]);
        } else {
            assert(batch_members(post[j]).len() == 1);
        }
    }
    assert forall|j1: int, k1: int, j2: int, k2: int|
        0 <= j1 < post.len() && 0 <= k1 < batch_members(post[j1]).len() && 0 <= j2 < post.len()
            && 0 <= k2 < batch_members(post[j2]).len() && #[trigger] batch_members(post[j1])[k1]
            == #[trigger] batch_members(post[j2])[k2] implies j1 == j2 && k1 == k2 by {
        let v = batch_members(post[j1])[k1];
        if j1 == j0 && j2 == j0 {
            assert(batch_members(post[j0]).len() == 1);
        } else if j1 == j0 {
            assert(batch_members(post[j2]) == batch_members(pre[j2]));
            assert((v as int) < i && v == i);
        } else if j2 == j0 {
            assert(batch_members(post[j1]) == batch_members(pre[j1]));
            assert((v as int) < i && v == i);
        } else {
            assert(batch_members(post[j1]) == batch_members(pre[j1]));
            assert(batch_members(post[j2]) == batch_members(pre[j2]));
        }
    }
    assert forall|j: int, k1: int, k2: int|
        0 <= j < post.len() && 0 <= k1 < batch_members(post[j]).len() && 0 <= k2 < batch_members(
            post[j],
        ).len() && k1 != k2 && #[trigger] batch_members(post[j])[k1] < systems.len()
            && #[trigger] batch_members(post[j])[k2] < systems.len() implies systems_compatible(
        &systems[batch_members(post[j])[k1] as int],
        &systems[batch_members(post[j])[k2] as int],
    ) by {
        if j < j0 {
            assert(batch_members(post[j]) == batch_members(pre[j]));
        } else {
            assert(batch_members(post[j]).len() == 1);
        }
    }
    assert forall|x: usize| member_occurs(pre, x) implies member_occurs(post, x) by {
        let (j, k): (int, int) = choose|j: int, k: int|
            0 <= j < pre.len() && 0 <= k < batch_members(pre[j]).len() && #[trigger] batch_members(
                pre[j],
            )[k] == x;
        assert(batch_members(post[j])[k] == x);
    }
}

/// Returns whether the borrow set of `candidate` is compatible with that of
/// every member of `batch`.
fn candidate_fits_batch(systems: &Vec<SystemInfo>, batch: &Batch, candidate: &SystemInfo) -> (r:
    bool)
    requires
        batch_below(*batch, systems@.len() as int),
    ensures
        r == forall|k: int|
            0 <= k < batch_members(*batch).len() ==> systems_compatible(
                &systems@[#[trigger] batch_members(*batch)[k] as int],
                candidate,
            ),
{
    let offset: usize = match batch.anchor {
        Some(anchor_index) => {
            proof {
                assert(batch_members(*batch)[0] == anchor_index);
            }
            if !check_systems_compatible(&systems[anchor_index], candidate) {
                return false;
            }
            1
        },
        None => 0,
    };
    let member_count = batch.parallel.len();
    let mut k: usize = 0;
    while k < member_count
        invariant
            k <= member_count,
            member_count == batch.parallel@.len(),
            batch_below(*batch, systems@.len() as int),
            offset == batch_members(*batch).len() - batch.parallel@.len(),
            forall|p: int|
                0 <= p < k + offset ==> systems_compatible(
                    &systems@[#[trigger] batch_members(*batch)[p] as int],
                    candidate,
                ),
        decreases member_count - k,
    {
        proof {
            assert(batch_members(*batch)[k + offset] == batch.parallel@[k as int]);
        }
        if !check_systems_compatible(&systems[batch.parallel[k]], candidate) {
            return false;
        }
        k += 1;
    }
    true
}

/// Packs the systems of a workload into parallel batches, greedily: each
/// system joins the current batch exactly when its borrow set is compatible
/// with every member already there and, if the system is thread-bound, the
/// batch has no anchor yet; otherwise it opens a new batch. Any two systems
/// placed in the same batch have compatible borrow sets, so no storage is
/// contended exclusively inside a batch; every system is placed exactly
/// once; the sequential order lists all systems in declaration order; and
/// each batch's anchor, when present, is a thread-bound system.
#[verifier::loop_isolation(false)]
pub fn plan_batches(systems: &Vec<SystemInfo>) -> (r: Batches)
    ensures
        batches_compatible(r.parallel@, systems@),
        all_members_below(r.parallel@, systems@.len() as int),
        members_injective(r.parallel@),
        forall|i: usize| i < systems@.len() ==> member_occurs(r.parallel@, i),
        r.sequential@.len() == systems@.len(),
        forall|i: int| 0 <= i < systems@.len() ==> #[trigger] r.sequential@[i] == i as usize,
        forall|j: int|
            0 <= j < r.parallel@.len() && (#[trigger] r.parallel@[j]).anchor is Some
                ==> systems@[r.parallel@[j].anchor->0 as int].is_thread_local,
{
    let n = systems.len();
    let mut parallel: Vec<Batch> = Vec::new();
    let mut sequential: Vec<usize> = Vec::new();
    let mut i: usize = 0;
    while i < n
        invariant
            i <= n,
            sequential@.len() == i,
            forall|x: int| 0 <= x < i ==> #[trigger] sequential@[x] == x as usize,
            batches_compatible(parallel@, systems@),
            all_members_below(parallel@, i as int),
            members_injective(parallel@),
            forall|x: usize| x < i ==> member_occurs(parallel@, x),
            forall|j: int|
                0 <= j < parallel@.len() && (#[trigger] parallel@[j]).anchor is Some
                    ==> systems@[parallel@[j].anchor->0 as int].is_thread_local,
        decreases n - i,
    {
        sequential.push(i);
        let candidate = &systems[i];
        let ghost pre_parallel = parallel@;
        let batch_count = parallel.len();
        let mut placed = false;
        if batch_count > 0 {
            let ghost j0 = batch_count - 1;
            let fits = {
                let last = &parallel[batch_count - 1];
                proof {
                    assert forall|k: int|
                        0 <= k < batch_members(*last).len() implies (
                    #[trigger] batch_members(*last)[k] as int) < systems@.len() by {
                        assert((batch_members(pre_parallel[j0 as int])[k] as int) < i);
                    }
                }
                let anchor_ok = !candidate.is_thread_local || last.anchor.is_none();
                anchor_ok && candidate_fits_batch(systems, last, candidate)
            };
            if fits {
                let slot = &mut parallel[batch_count - 1];
                let ghost old_b = pre_parallel[j0 as int];
                if candidate.is_thread_local {
                    slot.anchor = Some(i);
                } else {
                    slot.parallel.push(i);
                }
                placed = true;
                proof {
                    let new_b = parallel@[j0 as int];
                    if candidate.is_thread_local {
                        assert(batch_members(new_b) =~= seq![i] + batch_members(old_b));
                    } else {
                        assert(batch_members(new_b) =~= batch_members(old_b).push(i));
                    }
                    assert forall|k: int|
                        0 <= k < batch_members(old_b).len() implies systems_compatible(
                        &systems@[#[trigger] batch_members(old_b)[k] as int],
                        &systems@[i as int],
                    ) by {}
                    lemma_member_added(
                        pre_parallel,
                        parallel@,
                        j0 as int,
                        i,
                        systems@,
                        candidate.is_thread_local,
                    );
                }
            }
        }
        if !placed {
            let fresh_batch = if candidate.is_thread_local {
                Batch { anchor: Some(i), parallel: Vec::new() }
            } else {
                let mut members: Vec<usize> = Vec::new();
                members.push(i);
                Batch { anchor: None, parallel: members }
            };
            parallel.push(fresh_batch);
            proof {
                assert(batch_members(parallel@[pre_parallel.len() as int]) =~= seq![i]);
                lemma_batch_appended(pre_parallel, parallel@, i, systems@);
            }
        }
        i += 1;
    }
    Batches { parallel, sequential }
}

/// The registry of named workloads behind the scheduler: hashbrown's map
/// gives the constant-time name lookup; it is held whole behind trusted
/// wrappers because its hasher and allocator parameters cannot be declared
/// to the verifier.
#[verifier::external_body]
pub struct WorkloadMap {
    inner: hashbrown::HashMap<String, usize>,
}

pub uninterp spec fn workload_map_view(m: WorkloadMap) -> Map<Seq<char>, usize>;

/// The contents of a workload-name registry with nothing registered.
pub open spec fn no_names() -> Map<Seq<char>, usize> {
    Map::empty()
}

impl WorkloadMap {
    /// Relies on `hashbrown::HashMap::new`: the fresh map is empty.
    #[verifier::external_body]
    fn new() -> (fresh: WorkloadMap)
        ensures
            workload_map_view(fresh) == no_names(),
    {
        WorkloadMap { inner: hashbrown::HashMap::new() }
    }

    /// Relies on `hashbrown::HashMap::insert`: maps the key to the value
    /// and returns the value the key had before, if any.
    #[verifier::external_body]
    fn insert(&mut self, name: String, index: usize) -> (r: Option<usize>)
        ensures
            workload_map_view(*final(self)) == workload_map_view(*old(self)).insert(name@, index),
            r == if workload_map_view(*old(self)).dom().contains(name@) {
                Option::Some(workload_map_view(*old(self))[name@])
            } else {
                Option::<usize>::None
            },
    {
        self.inner.insert(name, index)
    }

    /// Relies on `hashbrown::HashMap::get`: returns the value mapped to the
    /// key, if any.
    #[verifier::external_body]
    fn get(&self, name: &str) -> (r: Option<usize>)
        ensures
            r == if workload_map_view(*self).dom().contains(name@) {
                Option::Some(workload_map_view(*self)[name@])
            } else {
                Option::<usize>::None
            },
    {
        self.inner.get(name).copied()
    }

    /// Relies on `hashbrown::HashMap::remove`: unmaps the key and returns
    /// the value it had, if any.
    #[verifier::external_body]
    fn remove_name(&mut self, name: &str) -> (r: Option<usize>)
        ensures
            workload_map_view(*final(self)) == workload_map_view(*old(self)).remove(name@),
            r == if workload_map_view(*old(self)).dom().contains(name@) {
                Option::Some(workload_map_view(*old(self))[name@])
            } else {
                Option::<usize>::None
            },
    {
        self.inner.remove(name)
    }
}

/// The scheduler: the analyzed workloads, a name registry over them, and an
/// optional default.
pub struct Scheduler {
    /// The analyzed workloads, in registration order.
    pub workloads: Vec<Batches>,
    /// Workload name to index in `workloads`.
    pub names: WorkloadMap,
    /// Index of the default workload, if one was set.
    pub default_index: Option<usize>,
}

impl Scheduler {
    /// Every name maps to a registered workload, and so does the default.
    pub open spec fn wf(self) -> bool {
        &&& forall|k: Seq<char>|
            workload_map_view(self.names).dom().contains(k)
                ==> (#[trigger] workload_map_view(self.names)[k]) < self.workloads@.len()
        &&& self.default_index is Some ==> self.default_index->0 < self.workloads@.len()
    }

    /// The names under which workloads are registered.
    pub open spec fn names_view(self) -> Map<Seq<char>, usize> {
        workload_map_view(self.names)
    }

    /// Returns an empty scheduler: no workload, no default.
    pub fn new() -> (r: Scheduler)
        ensures
            r.wf(),
            r.names_view() == no_names(),
            r.workloads@.len() == 0,
            r.default_index is None,
    {
        Scheduler { workloads: Vec::new(), names: WorkloadMap::new(), default_index: None }
    }

    /// Registers the batching of `systems` under `name`. Refuses a name
    /// that is already taken.
    pub fn add_workload(&mut self, name: String, systems: &Vec<SystemInfo>) -> (r: Result<
        (),
        WorkloadError,
    >)
        requires
            old(self).wf(),
            old(self).workloads@.len() < usize::MAX,
        ensures
            final(self).wf(),
            r is Ok <==> !old(self).names_view().dom().contains(name@),
            r is Err ==> r == Result::<(), WorkloadError>::Err(WorkloadError::AlreadyExists)
                && *final(self) == *old(self),
            r is Ok ==> {
                let added = final(self).workloads@.last();
                &&& final(self).names_view() == old(self).names_view().insert(
                    name@,
                    old(self).workloads@.len() as usize,
                )
                &&& final(self).workloads@.len() == old(self).workloads@.len() + 1
                &&& batches_compatible(added.parallel@, systems@)
                &&& all_members_below(added.parallel@, systems@.len() as int)
                &&& members_injective(added.parallel@)
                &&& forall|i: usize| i < systems@.len() ==> member_occurs(added.parallel@, i)
                &&& added.sequential@.len() == systems@.len()
                &&& final(self).default_index == old(self).default_index
            },
    {
        if self.names.get(name.as_str()).is_some() {
            return Err(WorkloadError::AlreadyExists);
        }
        let index = self.workloads.len();
        let batches = plan_batches(systems);
        self.workloads.push(batches);
        self.names.insert(name, index);
        Ok(())
    }

    /// Returns the analyzed batches registered under `name`.
    pub fn workload(&self, name: &str) -> (r: Option<&Batches>)
        requires
            self.wf(),
        ensures
            r is Some <==> self.names_view().dom().contains(name@),
            r is Some ==> *r->0 == self.workloads@[self.names_view()[name@] as int],
    {
        match self.names.get(name) {
            Some(index) => Some(&self.workloads[index]),
            None => None,
        }
    }

    /// Returns the registration index of the workload under `name`.
    pub fn workload_index(&self, name: &str) -> (r: Option<usize>)
        requires
            self.wf(),
        ensures
            r is Some <==> self.names_view().dom().contains(name@),
            r is Some ==> r->0 == self.names_view()[name@] && r->0 < self.workloads@.len(),
    {
        self.names.get(name)
    }

    /// Returns `true` if a workload is registered under `name`.
    pub fn contains_workload(&self, name: &str) -> (r: bool)
        ensures
            r == self.names_view().dom().contains(name@),
    {
        self.names.get(name).is_some()
    }

    /// Makes the workload registered under `name` the default one.
    pub fn set_default(&mut self, name: &str) -> (r: Result<(), WorkloadError>)
        requires
            old(self).wf(),
        ensures
            final(self).wf(),
            r is Ok <==> old(self).names_view().dom().contains(name@),
            r is Err ==> r == Result::<(), WorkloadError>::Err(WorkloadError::MissingWorkload)
                && *final(self) == *old(self),
            r is Ok ==> *final(self) == (Scheduler {
                default_index: Some(old(self).names_view()[name@] as usize),
                ..*old(self)
            }),
    {
        match self.names.get(name) {
            Some(index) => {
                self.default_index = Some(index);
                Ok(())
            },
            None => Err(WorkloadError::MissingWorkload),
        }
    }

    /// Moves the workload registered under `old_name` to `new_name`.
    /// Returns whether a workload was renamed; the default workload, being
    /// tracked by index, is unaffected. An existing workload under
    /// `new_name` loses its name.
    pub fn rename(&mut self, old_name: &str, new_name: String) -> (r: bool)
        requires
            old(self).wf(),
        ensures
            final(self).wf(),
            r == old(self).names_view().dom().contains(old_name@),
            r ==> final(self).names_view() == old(self).names_view().remove(old_name@).insert(
                new_name@,
                old(self).names_view()[old_name@],
            ),
            !r ==> final(self).names_view() == old(self).names_view(),
            final(self).workloads@ == old(self).workloads@,
            final(self).default_index == old(self).default_index,
    {
        match self.names.remove_name(old_name) {
            Some(index) => {
                self.names.insert(new_name, index);
                true
            },
            None => false,
        }
    }

    /// Returns the batches of the default workload, if one was set.
    pub fn default_workload(&self) -> (r: Option<&Batches>)
        requires
            self.wf(),
        ensures
            r is Some <==> self.default_index is Some,
            r is Some ==> *r->0 == self.workloads@[self.default_index->0 as int],
    {
        match self.default_index {
            Some(index) => Some(&self.workloads[index]),
            None => None,
        }
    }

    /// Returns `true` if no workload is registered.
    pub fn is_empty(&self) -> (r: bool)
        ensures
            r == (self.workloads@.len() == 0),
    {
        self.workloads.is_empty()
    }
}

} // verus!
