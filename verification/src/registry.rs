//! The storage registry: one borrow cell per storage id, with
//! insert-or-get registration, plus the tracking clock.
//!
//! A storage id is a stable hash of the identity of a storage's payload
//! type, minted by whoever owns the payloads; the registry arbitrates
//! access. Looking up an id either finds its cell or, on the insert-or-get
//! path, creates a fresh one with the thread-affinity policy derived from
//! the payload type. The registry never blocks: borrowing a storage is one
//! cell transition that either succeeds or reports why not.

use crate::borrow_cell::{Borrow, BorrowState};
use crate::error::StorageError;
use crate::scheduler::StorageAccess;
use crate::tracking::TrackingTimestamp;
use vstd::prelude::*;

verus! {

/// One registered storage: its id, its borrow cell, and its thread-affinity
/// policy (`send` names the owning thread of a non-sendable payload,
/// `is_sync` says whether the payload may be shared between threads).
pub struct StorageCell {
    /// The storage id.
    pub id: u64,
    /// The borrow cell guarding the storage.
    pub state: BorrowState,
    /// The owning thread, for a payload that must not move across threads.
    pub send: Option<u64>,
    /// Whether the payload may be shared between threads.
    pub is_sync: bool,
}

/// The borrow cells of all registered storages, and the tracking clock.
pub struct StorageRegistry {
    /// The cells, one per storage id.
    pub cells: Vec<StorageCell>,
    /// The monotonic tracking counter; wraps around.
    pub counter: u32,
}

/// The ids of `cells` are pairwise distinct and every state word is well
/// formed.
pub open spec fn cells_wf(cells: Seq<StorageCell>) -> bool {
    &&& forall|j1: int, j2: int|
        0 <= j1 < j2 < cells.len() ==> (#[trigger] cells[j1]).id != (#[trigger] cells[j2]).id
    &&& forall|j: int| 0 <= j < cells.len() ==> (#[trigger] cells[j]).state.wf()
}

impl StorageRegistry {
    /// Ids are unique and every cell's state word is well formed.
    pub open spec fn wf(self) -> bool {
        cells_wf(self.cells@)
    }

    /// Whether a storage is registered under `id`.
    pub open spec fn has_storage(self, id: u64) -> bool {
        exists|j: int| 0 <= j < self.cells@.len() && (#[trigger] self.cells@[j]).id == id
    }

    /// The position of `id`'s cell.
    pub open spec fn cell_index(self, id: u64) -> int {
        choose|j: int| 0 <= j < self.cells@.len() && (#[trigger] self.cells@[j]).id == id
    }

    /// The cell registered under `id`.
    pub open spec fn cell_of(self, id: u64) -> StorageCell {
        self.cells@[self.cell_index(id)]
    }

    /// Returns an empty registry with the clock at its first tick.
    pub fn new() -> (r: StorageRegistry)
        ensures
            r.wf(),
            r.cells@.len() == 0,
            r.counter == 1,
    {
        StorageRegistry { cells: Vec::new(), counter: 1 }
    }

    /// Hands out the current tick and advances the clock, wrapping around.
    pub fn get_current(&mut self) -> (r: u32)
        ensures
            r == old(self).counter,
            final(self).counter == vstd::wrapping::u32_specs::wrapping_add(old(self).counter, 1),
            final(self).cells@ == old(self).cells@,
    {
        let current = self.counter;
        self.counter = self.counter.wrapping_add(1);
        current
    }

    /// Returns a timestamp usable to trim tracking logs.
    pub fn get_tracking_timestamp(&self) -> (r: TrackingTimestamp)
        ensures
            r.0 == self.counter,
    {
        TrackingTimestamp(self.counter)
    }

    /// Looks for the cell registered under `id`.
    fn find(&self, id: u64) -> (r: Option<usize>)
        requires
            self.wf(),
        ensures
            r is Some <==> self.has_storage(id),
            r is Some ==> r->0 < self.cells@.len() && self.cells@[r->0 as int].id == id && r->0
                == self.cell_index(id),
    {
        let count = self.cells.len();
        let mut j: usize = 0;
        while j < count
            invariant
                self.wf(),
                j <= count,
                count == self.cells@.len(),
                forall|k: int| 0 <= k < j ==> (#[trigger] self.cells@[k]).id != id,
            decreases count - j,
        {
            if self.cells[j].id == id {
                proof {
                    assert(self.cells@[j as int].id == id);
                    let w = self.cell_index(id);
                    assert(0 <= w < self.cells@.len() && self.cells@[w].id == id);
                    if w < j as int {
                        assert(self.cells@[w].id != self.cells@[j as int].id);
                    } else if w > j as int {
                        assert(self.cells@[j as int].id != self.cells@[w].id);
                    }
                }
                return Some(j);
            }
            j += 1;
        }
        None
    }

    /// Registers a fresh storage under `id` with the given thread-affinity
    /// policy, unless one exists. Returns whether a cell was created.
    pub fn register_storage(&mut self, id: u64, send: Option<u64>, is_sync: bool) -> (r: bool)
        requires
            old(self).wf(),
        ensures
            final(self).wf(),
            r == !old(self).has_storage(id),
            final(self).has_storage(id),
            final(self).counter == old(self).counter,
            !r ==> final(self).cells@ == old(self).cells@,
            r ==> final(self).cells@ == old(self).cells@.push(
                StorageCell { id, state: BorrowState { word: 0 }, send, is_sync },
            ),
    {
        if self.find(id).is_some() {
            return false;
        }
        self.cells.push(StorageCell { id, state: BorrowState { word: 0 }, send, is_sync });
        proof {
            assert(self.cells@.last().id == id);
        }
        true
    }

    /// Tries to take a shared borrow of the storage under `id`, from the
    /// thread identified by `current_thread`: one transition of the
    /// storage's cell, which either succeeds or reports why not. Every
    /// other cell is untouched.
    pub fn try_borrow_storage(&mut self, id: u64, current_thread: u64) -> (r: Result<
        Borrow,
        StorageError,
    >)
        requires
            old(self).wf(),
        ensures
            final(self).wf(),
            final(self).counter == old(self).counter,
            !old(self).has_storage(id) ==> r == Result::<Borrow, StorageError>::Err(
                StorageError::MissingStorage,
            ) && final(self).cells@ == old(self).cells@,
            old(self).has_storage(id) ==> {
                let pre = old(self).cell_of(id);
                let outcome = BorrowState::shared_result(
                    pre.state,
                    pre.send,
                    pre.is_sync,
                    current_thread,
                );
                &&& r == match outcome {
                    Result::Ok(b) => Result::<Borrow, StorageError>::Ok(b),
                    Result::Err(e) => Result::<Borrow, StorageError>::Err(
                        StorageError::StorageBorrow(e),
                    ),
                }
                &&& final(self).cells@ == old(self).cells@.update(
                    old(self).cell_index(id),
                    StorageCell {
                        state: BorrowState::shared_post(
                            pre.state,
                            pre.send,
                            pre.is_sync,
                            current_thread,
                        ),
                        ..pre
                    },
                )
            },
    {
        let j = match self.find(id) {
            Some(j) => j,
            None => {
                return Err(StorageError::MissingStorage);
            },
        };
        let cell = &mut self.cells[j];
        let send = cell.send;
        let is_sync = cell.is_sync;
        match cell.state.try_borrow(send, is_sync, current_thread) {
            Ok(borrow) => Ok(borrow),
            Err(e) => Err(StorageError::StorageBorrow(e)),
        }
    }

    /// Tries to take an exclusive borrow of the storage under `id`, from
    /// the thread identified by `current_thread`. Every other cell is
    /// untouched.
    pub fn try_borrow_storage_mut(&mut self, id: u64, current_thread: u64) -> (r: Result<
        Borrow,
        StorageError,
    >)
        requires
            old(self).wf(),
        ensures
            final(self).wf(),
            final(self).counter == old(self).counter,
            !old(self).has_storage(id) ==> r == Result::<Borrow, StorageError>::Err(
                StorageError::MissingStorage,
            ) && final(self).cells@ == old(self).cells@,
            old(self).has_storage(id) ==> {
                let pre = old(self).cell_of(id);
                let outcome = BorrowState::exclusive_result(pre.state, pre.send, current_thread);
                &&& r == match outcome {
                    Result::Ok(b) => Result::<Borrow, StorageError>::Ok(b),
                    Result::Err(e) => Result::<Borrow, StorageError>::Err(
                        StorageError::StorageBorrow(e),
                    ),
                }
                &&& final(self).cells@ == old(self).cells@.update(
                    old(self).cell_index(id),
                    StorageCell {
                        state: BorrowState::exclusive_post(pre.state, pre.send, current_thread),
                        ..pre
                    },
                )
            },
    {
        let j = match self.find(id) {
            Some(j) => j,
            None => {
                return Err(StorageError::MissingStorage);
            },
        };
        let cell = &mut self.cells[j];
        let send = cell.send;
        match cell.state.try_borrow_mut(send, cell.is_sync, current_thread) {
            Ok(borrow) => Ok(borrow),
            Err(e) => Err(StorageError::StorageBorrow(e)),
        }
    }

    /// Borrows the storage under `id`, creating its cell first if none
    /// exists — the insert-or-get path of a typed view request. The cell a
    /// fresh storage gets carries the policy `(send, is_sync)`; an existing
    /// storage keeps the policy it was registered with.
    pub fn try_borrow_storage_or_insert(
        &mut self,
        id: u64,
        send: Option<u64>,
        is_sync: bool,
        exclusive: bool,
        current_thread: u64,
    ) -> (r: Result<Borrow, StorageError>)
        requires
            old(self).wf(),
        ensures
            final(self).wf(),
            final(self).counter == old(self).counter,
            final(self).has_storage(id),
            r is Err ==> r->Err_0 is StorageBorrow,
            final(self).cells@ == cells_after_request(
                if old(self).has_storage(id) {
                    old(self).cells@
                } else {
                    old(self).cells@.push(
                        (StorageCell { id, state: BorrowState { word: 0 }, send, is_sync }),
                    )
                },
                (StorageAccess { storage: id, exclusive }),
                current_thread,
            ),
            ({
                let pre = if old(self).has_storage(id) {
                    old(self).cell_of(id)
                } else {
                    StorageCell { id, state: BorrowState { word: 0 }, send, is_sync }
                };
                let outcome = if exclusive {
                    BorrowState::exclusive_result(pre.state, pre.send, current_thread)
                } else {
                    BorrowState::shared_result(pre.state, pre.send, pre.is_sync, current_thread)
                };
                r == match outcome {
                    Result::Ok(b) => Result::<Borrow, StorageError>::Ok(b),
                    Result::Err(e) => Result::<Borrow, StorageError>::Err(
                        StorageError::StorageBorrow(e),
                    ),
                }
            }),
    {
        let created = self.register_storage(id, send, is_sync);
        let ghost mid = *self;
        proof {
            if created {
                let j = mid.cells@.len() - 1;
                assert(mid.cells@[j].id == id);
                let w = mid.cell_index(id);
                assert(0 <= w < mid.cells@.len() && mid.cells@[w].id == id);
                if w < j {
                    assert(!old(self).has_storage(id));
                    assert(old(self).cells@[w].id == id);
                }
                assert(mid.cell_of(id) == (StorageCell {
                    id,
                    state: BorrowState { word: 0 },
                    send,
                    is_sync,
                }));
            } else {
                assert(mid.cell_of(id) == old(self).cell_of(id));
            }
        }
        let r = if exclusive {
            self.try_borrow_storage_mut(id, current_thread)
        } else {
            self.try_borrow_storage(id, current_thread)
        };
        proof {
            let j = mid.cell_index(id);
            assert(mid.cells@[j].id == id);
            assert(self.cells@[j].id == id);
            let j2 = seq_index_of_id(mid.cells@, id);
            assert(mid.cells@[j2].id == id);
            if j < j2 {
                assert(mid.cells@[j].id != mid.cells@[j2].id);
            } else if j > j2 {
                assert(mid.cells@[j2].id != mid.cells@[j].id);
            }
            assert(self.cells@ == cells_after_request(
                mid.cells@,
                (StorageAccess { storage: id, exclusive }),
                current_thread,
            ));
        }
        match r {
            Ok(borrow) => Ok(borrow),
            Err(e) => {
                match e {
                    StorageError::StorageBorrow(inner) => Err(
                        StorageError::StorageBorrow(inner),
                    ),
                    _ => {
                        proof {
                            assert(false);
                        }
                        Err(e)
                    },
                }
            },
        }
    }

    /// Gives a borrow of the storage under `id` back to its cell.
    pub fn release_storage(&mut self, id: u64, borrow: Borrow)
        requires
            old(self).wf(),
            old(self).has_storage(id),
            borrow is Shared ==> !old(self).cell_of(id).state.is_exclusive() && old(self).cell_of(
                id,
            ).state.shared_count() >= 1,
            borrow is Unique ==> old(self).cell_of(id).state.is_exclusive(),
        ensures
            final(self).wf(),
            final(self).counter == old(self).counter,
            final(self).cells@.len() == old(self).cells@.len(),
            borrow is Shared ==> final(self).cells@ == old(self).cells@.update(
                old(self).cell_index(id),
                StorageCell {
                    state: BorrowState { word: (old(self).cell_of(id).state.word - 1) as u64 },
                    ..old(self).cell_of(id)
                },
            ),
            borrow is Unique ==> final(self).cells@ == old(self).cells@.update(
                old(self).cell_index(id),
                StorageCell { state: BorrowState { word: 0 }, ..old(self).cell_of(id) },
            ),
    {
        let j = match self.find(id) {
            Some(j) => j,
            None => {
                proof {
                    assert(false);
                }
                return ;
            },
        };
        let cell = &mut self.cells[j];
        cell.state.release(borrow);
    }
}

/// Whether some cell of `cells` carries `id`.
pub open spec fn seq_has_id(cells: Seq<StorageCell>, id: u64) -> bool {
    exists|j: int| 0 <= j < cells.len() && (#[trigger] cells[j]).id == id
}

/// The position of `id`'s cell in `cells`.
pub open spec fn seq_index_of_id(cells: Seq<StorageCell>, id: u64) -> int {
    choose|j: int| 0 <= j < cells.len() && (#[trigger] cells[j]).id == id
}

/// The cells after one borrow attempt for `req` from `thread`: the
/// requested cell steps by its shared or exclusive transition (which leaves
/// it unchanged when the attempt is refused); a missing id changes nothing.
pub open spec fn cells_after_request(
    cells: Seq<StorageCell>,
    req: StorageAccess,
    thread: u64,
) -> Seq<StorageCell> {
    if seq_has_id(cells, req.storage) {
        let j = seq_index_of_id(cells, req.storage);
        let pre = cells[j];
        let state = if req.exclusive {
            BorrowState::exclusive_post(pre.state, pre.send, thread)
        } else {
            BorrowState::shared_post(pre.state, pre.send, pre.is_sync, thread)
        };
        cells.update(j, StorageCell { state, ..pre })
    } else {
        cells
    }
}

/// The cells after attempting every request of `reqs` in order.
pub open spec fn cells_after_requests(
    cells: Seq<StorageCell>,
    reqs: Seq<StorageAccess>,
    thread: u64,
) -> Seq<StorageCell>
    decreases reqs.len(),
{
    if reqs.len() == 0 {
        cells
    } else {
        cells_after_request(cells_after_requests(cells, reqs.drop_last(), thread), reqs.last(), thread)
    }
}

/// Whether the borrow attempt for `req` from `thread` succeeds on `cells`.
pub open spec fn request_succeeds(cells: Seq<StorageCell>, req: StorageAccess, thread: u64) -> bool {
    &&& seq_has_id(cells, req.storage)
    &&& ({
        let pre = cells[seq_index_of_id(cells, req.storage)];
        if req.exclusive {
            BorrowState::exclusive_result(pre.state, pre.send, thread) is Ok
        } else {
            BorrowState::shared_result(pre.state, pre.send, pre.is_sync, thread) is Ok
        }
    })
}

/// One borrow attempt changes no cell's identity or policy, keeps the ids
/// pairwise distinct, and keeps every state word well formed.
proof fn lemma_request_preserves_shape(cells: Seq<StorageCell>, req: StorageAccess, thread: u64)
    requires
        cells_wf(cells),
    ensures
        cells_after_request(cells, req, thread).len() == cells.len(),
        forall|j: int|
            0 <= j < cells.len() ==> (#[trigger] cells_after_request(cells, req, thread)[j]).id
                == cells[j].id && cells_after_request(cells, req, thread)[j].send == cells[j].send
                && cells_after_request(cells, req, thread)[j].is_sync == cells[j].is_sync,
        cells_wf(cells_after_request(cells, req, thread)),
{
}

/// A whole sequence of borrow attempts keeps the cells' identities,
/// policies and well-formedness.
proof fn lemma_requests_preserve_shape(
    cells: Seq<StorageCell>,
    reqs: Seq<StorageAccess>,
    thread: u64,
)
    requires
        cells_wf(cells),
    ensures
        cells_after_requests(cells, reqs, thread).len() == cells.len(),
        forall|j: int|
            0 <= j < cells.len() ==> (#[trigger] cells_after_requests(cells, reqs, thread)[j]).id
                == cells[j].id,
        cells_wf(cells_after_requests(cells, reqs, thread)),
    decreases reqs.len(),
{
    if reqs.len() > 0 {
        lemma_requests_preserve_shape(cells, reqs.drop_last(), thread);
        lemma_request_preserves_shape(
            cells_after_requests(cells, reqs.drop_last(), thread),
            reqs.last(),
            thread,
        );
    }
}

/// Releasing the borrow that the last successful request took returns the
/// cells to their state before that request.
proof fn lemma_release_undoes_last(cells: Seq<StorageCell>, req: StorageAccess, thread: u64)
    requires
        cells_wf(cells),
        request_succeeds(cells, req, thread),
    ensures
        ({
            let after = cells_after_request(cells, req, thread);
            let j = seq_index_of_id(after, req.storage);
            let held = after[j];
            let undone = if req.exclusive {
                StorageCell { state: BorrowState { word: 0 }, ..held }
            } else {
                StorageCell { state: BorrowState { word: (held.state.word - 1) as u64 }, ..held }
            };
            after.update(j, undone) == cells
        }),
{
    let j0 = seq_index_of_id(cells, req.storage);
    let after = cells_after_request(cells, req, thread);
    lemma_request_preserves_shape(cells, req, thread);
    let j = seq_index_of_id(after, req.storage);
    assert(after[j0].id == req.storage);
    if j != j0 {
        assert(after[j].id == req.storage);
        assert(cells[j].id == req.storage);
        assert(cells[j0].id == cells[j].id);
        if j0 < j {
            assert(cells[j0].id != cells[j].id);
        } else {
            assert(cells[j].id != cells[j0].id);
        }
    }
    let held = after[j];
    let undone = if req.exclusive {
        StorageCell { state: BorrowState { word: 0 }, ..held }
    } else {
        StorageCell { state: BorrowState { word: (held.state.word - 1) as u64 }, ..held }
    };
    assert(after.update(j, undone) =~= cells);
}

impl StorageRegistry {
    /// Acquires the whole borrow set `requests`, left to right: the
    /// deterministic acquisition order of a compound view. On the first
    /// refusal, the borrows already taken are released in reverse order and
    /// the failing position is reported with its error — after a failure
    /// every cell reads exactly as it did before the call. On success the
    /// tokens come back in request order, each of the requested kind.
    pub fn try_borrow_all(&mut self, requests: &Vec<StorageAccess>, current_thread: u64) -> (r:
        Result<Vec<Borrow>, (usize, StorageError)>)
        requires
            old(self).wf(),
        ensures
            final(self).wf(),
            final(self).counter == old(self).counter,
            r is Err ==> final(self).cells@ == old(self).cells@,
            r is Err ==> {
                let f = r->Err_0.0 as int;
                &&& 0 <= f < requests@.len()
                &&& !request_succeeds(
                    cells_after_requests(old(self).cells@, requests@.take(f), current_thread),
                    requests@[f],
                    current_thread,
                )
                &&& forall|x: int|
                    0 <= x < f ==> request_succeeds(
                        cells_after_requests(old(self).cells@, requests@.take(x), current_thread),
                        #[trigger] requests@[x],
                        current_thread,
                    )
            },
            r is Ok ==> {
                &&& final(self).cells@ == cells_after_requests(
                    old(self).cells@,
                    requests@,
                    current_thread,
                )
                &&& r->Ok_0@.len() == requests@.len()
                &&& forall|x: int|
                    0 <= x < requests@.len() ==> request_succeeds(
                        cells_after_requests(old(self).cells@, requests@.take(x), current_thread),
                        #[trigger] requests@[x],
                        current_thread,
                    )
                &&& forall|x: int|
                    0 <= x < requests@.len() ==> #[trigger] r->Ok_0@[x] == if requests@[x].exclusive {
                        Borrow::Unique
                    } else {
                        Borrow::Shared
                    }
            },
    {
        let (tokens, failure) = self.acquire_borrows(requests, current_thread);
        let (failed_index, error) = match failure {
            None => {
                proof {
                    assert(requests@.take(requests@.len() as int) =~= requests@);
                }
                return Ok(tokens);
            },
            Some(pair) => pair,
        };
        // LIFO rollback: undo the successful borrows, newest first
        self.rollback_borrows(
            requests,
            tokens,
            failed_index,
            current_thread,
            Ghost(old(self).cells@),
        );
        Err((failed_index, error))
    }

    /// Attempts every request of `requests` in order, stopping at the first
    /// refusal: hands back the tokens taken so far and, on a refusal, the
    /// failing position with its error.
    #[verifier::loop_isolation(false)]
    #[verifier::rlimit(100)]
    fn acquire_borrows(&mut self, requests: &Vec<StorageAccess>, current_thread: u64) -> (r: (
        Vec<Borrow>,
        Option<(usize, StorageError)>,
    ))
        requires
            old(self).wf(),
        ensures
            final(self).wf(),
            final(self).counter == old(self).counter,
            ({
                let taken: int = if r.1 is Some {
                    (r.1->0).0 as int
                } else {
                    requests@.len() as int
                };
                &&& r.1 is Some ==> (r.1->0).0 < requests@.len() && !request_succeeds(
                    cells_after_requests(
                        old(self).cells@,
                        requests@.take(taken),
                        current_thread,
                    ),
                    requests@[taken],
                    current_thread,
                )
                &&& r.0@.len() == taken
                &&& final(self).cells@ == cells_after_requests(
                    old(self).cells@,
                    requests@.take(taken),
                    current_thread,
                )
                &&& forall|x: int|
                    0 <= x < taken ==> request_succeeds(
                        cells_after_requests(old(self).cells@, requests@.take(x), current_thread),
                        #[trigger] requests@[x],
                        current_thread,
                    )
                &&& forall|x: int|
                    0 <= x < taken ==> #[trigger] r.0@[x] == if requests@[x].exclusive {
                        Borrow::Unique
                    } else {
                        Borrow::Shared
                    }
            }),
    {
        let count = requests.len();
        let mut tokens: Vec<Borrow> = Vec::new();
        let mut k: usize = 0;
        while k < count
            invariant
                k <= count,
                tokens@.len() == k,
                self.wf(),
                self.counter == old(self).counter,
                self.cells@ == cells_after_requests(
                    old(self).cells@,
                    requests@.take(k as int),
                    current_thread,
                ),
                forall|x: int|
                    0 <= x < k ==> request_succeeds(
                        cells_after_requests(old(self).cells@, requests@.take(x), current_thread),
                        #[trigger] requests@[x],
                        current_thread,
                    ),
                forall|x: int|
                    0 <= x < k ==> #[trigger] tokens@[x] == if requests@[x].exclusive {
                        Borrow::Unique
                    } else {
                        Borrow::Shared
                    },
            decreases count - k,
        {
            let request = requests[k];
            let ghost pre_cells = self.cells@;
            let attempt = if request.exclusive {
                self.try_borrow_storage_mut(request.storage, current_thread)
            } else {
                self.try_borrow_storage(request.storage, current_thread)
            };
            proof {
                assert(requests@.take(k + 1).drop_last() =~= requests@.take(k as int));
                assert(requests@.take(k + 1).last() == requests@[k as int]);
            }
            match attempt {
                Ok(token) => {
                    proof {
                        assert(request_succeeds(pre_cells, request, current_thread));
                        assert(self.cells@ == cells_after_request(
                            pre_cells,
                            request,
                            current_thread,
                        ));
                    }
                    tokens.push(token);
                },
                Err(e) => {
                    proof {
                        assert(!request_succeeds(pre_cells, request, current_thread));
                        assert(self.cells@ =~= cells_after_request(
                            pre_cells,
                            request,
                            current_thread,
                        ));
                        assert(self.cells@ =~= cells_after_requests(
                            old(self).cells@,
                            requests@.take(k as int),
                            current_thread,
                        ));
                    }
                    return (tokens, Some((k, e)));
                },
            }
            k += 1;
        }
        proof {
            assert(requests@.take(count as int) =~= requests@);
        }
        (tokens, None)
    }

    /// Releases the first `failed_index` borrows of `requests` in reverse
    /// order, returning every cell to its state in `base`.
    #[verifier::loop_isolation(false)]
    #[verifier::rlimit(100)]
    fn rollback_borrows(
        &mut self,
        requests: &Vec<StorageAccess>,
        tokens: Vec<Borrow>,
        failed_index: usize,
        current_thread: u64,
        Ghost(base): Ghost<Seq<StorageCell>>,
    )
        requires
            old(self).wf(),
            cells_wf(base),
            failed_index <= requests@.len(),
            tokens@.len() == failed_index,
            old(self).cells@ == cells_after_requests(
                base,
                requests@.take(failed_index as int),
                current_thread,
            ),
            forall|x: int|
                0 <= x < failed_index ==> request_succeeds(
                    cells_after_requests(base, requests@.take(x), current_thread),
                    #[trigger] requests@[x],
                    current_thread,
                ),
            forall|x: int|
                0 <= x < failed_index ==> #[trigger] tokens@[x] == if requests@[x].exclusive {
                    Borrow::Unique
                } else {
                    Borrow::Shared
                },
        ensures
            final(self).wf(),
            final(self).counter == old(self).counter,
            final(self).cells@ == base,
    {
        let mut tokens = tokens;
        let mut m = failed_index;
        while m > 0
            invariant
                m <= failed_index,
                failed_index <= requests@.len(),
                tokens@.len() == m,
                self.wf(),
                self.counter == old(self).counter,
                self.cells@ == cells_after_requests(
                    base,
                    requests@.take(m as int),
                    current_thread,
                ),
                forall|x: int|
                    0 <= x < failed_index ==> request_succeeds(
                        cells_after_requests(base, requests@.take(x), current_thread),
                        #[trigger] requests@[x],
                        current_thread,
                    ),
                forall|x: int|
                    0 <= x < m ==> #[trigger] tokens@[x] == if requests@[x].exclusive {
                        Borrow::Unique
                    } else {
                        Borrow::Shared
                    },
            decreases m,
        {
            m = m - 1;
            let token = match tokens.pop() {
                Some(token) => token,
                None => {
                    proof {
                        assert(false);
                    }
                    break ;
                },
            };
            let request = requests[m];
            let ghost before = cells_after_requests(
                base,
                requests@.take(m as int),
                current_thread,
            );
            proof {
                assert(requests@.take(m + 1).drop_last() =~= requests@.take(m as int));
                assert(requests@.take(m + 1).last() == requests@[m as int]);
                lemma_requests_preserve_shape(base, requests@.take(m as int), current_thread);
                assert(request_succeeds(before, request, current_thread));
                let jb = seq_index_of_id(before, request.storage);
                assert(before[jb].id == request.storage);
                lemma_request_preserves_shape(before, request, current_thread);
                let after = cells_after_request(before, request, current_thread);
                assert(after[jb].id == request.storage);
                assert(seq_has_id(after, request.storage));
                lemma_release_undoes_last(before, request, current_thread);
                let j = seq_index_of_id(after, request.storage);
                assert(after[j].id == request.storage);
                if j != jb {
                    if j < jb {
                        assert(after[j].id != after[jb].id);
                    } else {
                        assert(after[jb].id != after[j].id);
                    }
                }
                assert(self.cells@ == after);
                assert(self.has_storage(request.storage));
                assert(self.cell_index(request.storage) == j) by {
                    let w = self.cell_index(request.storage);
                    assert(after[w].id == request.storage);
                    if w < j {
                        assert(after[w].id != after[j].id);
                    } else if w > j {
                        assert(after[j].id != after[w].id);
                    }
                }
            }
            self.release_storage(request.storage, token);
        }
        proof {
            assert(cells_after_requests(base, requests@.take(0), current_thread) =~= base) by {
                assert(requests@.take(0) =~= Seq::<StorageAccess>::empty());
            }
        }
    }
}

} // verus!
