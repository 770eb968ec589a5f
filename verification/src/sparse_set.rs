//! Dense per-component-type storage with optional change tracking.
//!
//! A [`SparseSet`] keeps three synchronized buffers: `dense`, the entities
//! that own a component, `data`, their components at the same positions, and
//! `sparse`, a paged map from entity slot index back to the position in
//! `dense`. Lookup, insertion and removal are constant-time; removal swaps
//! the last element into the hole.
//!
//! When tracking is enabled, parallel buffers record the tick at which each
//! component was inserted or last modified, and append-only logs record
//! deletions and removals; the logs can be trimmed with a wraparound-safe
//! timestamp cutoff.

use crate::component::Component;
use crate::entity_id::EntityId;
use crate::error::StorageError;
use crate::sparse_array::SparseArray;
use crate::tracking::{
    is_entry_kept, is_track_within_bounds, TrackingTimestamp, HALF_TRACKING_RANGE,
    TRACK_DELETION, TRACK_INSERTION, TRACK_MODIFICATION, TRACK_REMOVAL,
};
use vstd::prelude::*;

verus! {

/// Dense component storage for one component type `T`.
#[derive(Debug)]
pub struct SparseSet<T: Component> {
    /// Entity slot index to position in `dense`.
    pub sparse: SparseArray,
    /// The entities that own a component, in insertion order modulo
    /// swap-removals.
    pub dense: Vec<EntityId>,
    /// The components, parallel to `dense`.
    pub data: Vec<T>,
    /// Tick at which `dense[i]` was inserted; parallel to `dense` when
    /// insertion tracking is on, empty otherwise.
    pub insertion_data: Vec<u32>,
    /// Tick at which `dense[i]` was last modified; parallel to `dense` when
    /// modification tracking is on, empty otherwise.
    pub modification_data: Vec<u32>,
    /// Append-only log of deleted components, with the tick of each
    /// deletion.
    pub deletion_data: Vec<(EntityId, u32, T)>,
    /// Append-only log of removed entities, with the tick of each removal.
    pub removal_data: Vec<(EntityId, u32)>,
    /// Tick at which the *inserted* flags were last cleared wholesale.
    pub last_insert: u32,
    /// Tick at which the *modified* flags were last cleared wholesale.
    pub last_modified: u32,
    /// Whether insertion ticks are recorded.
    pub is_tracking_insertion: bool,
    /// Whether modification ticks are recorded.
    pub is_tracking_modification: bool,
    /// Whether deleted components are logged.
    pub is_tracking_deletion: bool,
    /// Whether removals are logged.
    pub is_tracking_removal: bool,
}

impl<T: Component> SparseSet<T> {
    /// The internal invariant: the three buffers are synchronized.
    ///
    /// `data` (and each enabled tracking buffer) is parallel to `dense`; the
    /// sparse entry of every dense entity points back at its position and
    /// carries its generation; and every live sparse entry points into
    /// `dense`, at an entity with the entry's own slot index.
    pub open spec fn wf(self) -> bool {
        &&& self.sparse.wf()
        &&& self.data@.len() == self.dense@.len()
        &&& self.insertion_data@.len() == if self.is_tracking_insertion {
            self.dense@.len()
        } else {
            0
        }
        &&& self.modification_data@.len() == if self.is_tracking_modification {
            self.dense@.len()
        } else {
            0
        }
        &&& forall|k: int|
            0 <= k < self.dense@.len() ==> {
                let id = #[trigger] self.dense@[k];
                &&& id.index_spec() <= usize::MAX
                &&& !id.is_dead_spec()
                &&& self.sparse.lookup(id.index_spec()).index_spec() == k
                &&& self.sparse.lookup(id.index_spec()).gen_spec() == id.gen_spec()
            }
        &&& forall|i: u64|
            !(#[trigger] self.sparse.lookup(i)).is_dead_spec() ==> {
                &&& self.sparse.lookup(i).index_spec() < self.dense@.len()
                &&& self.dense@[self.sparse.lookup(i).index_spec() as int].index_spec() == i
            }
    }

    /// The position in `dense` of `entity`'s component: the sparse entry at
    /// the entity's slot, provided it is live and its generation matches.
    pub open spec fn index_of_spec(self, entity: EntityId) -> Option<int> {
        let e = self.sparse.lookup(entity.index_spec());
        if !e.is_dead_spec() && e.gen_spec() == entity.gen_spec() {
            Option::Some(e.index_spec() as int)
        } else {
            Option::None
        }
    }

    /// Whether `entity` owns a component in this storage.
    pub open spec fn contains_spec(self, entity: EntityId) -> bool {
        self.index_of_spec(entity) is Some
    }

    /// The component owned by `entity`, when there is one.
    pub open spec fn get_spec(self, entity: EntityId) -> Option<T> {
        match self.index_of_spec(entity) {
            Option::Some(pos) => Option::Some(self.data@[pos]),
            Option::None => Option::None,
        }
    }

    /// Returns an empty storage with all tracking off.
    pub fn new() -> (r: SparseSet<T>)
        ensures
            r.wf(),
            r.dense@.len() == 0,
            r.deletion_data@.len() == 0,
            r.removal_data@.len() == 0,
            !r.is_tracking_insertion,
            !r.is_tracking_modification,
            !r.is_tracking_deletion,
            !r.is_tracking_removal,
            forall|e: EntityId| !#[trigger] r.contains_spec(e),
    {
        SparseSet {
            sparse: SparseArray::new(),
            dense: Vec::new(),
            data: Vec::new(),
            insertion_data: Vec::new(),
            modification_data: Vec::new(),
            deletion_data: Vec::new(),
            removal_data: Vec::new(),
            last_insert: 0,
            last_modified: 0,
            is_tracking_insertion: false,
            is_tracking_modification: false,
            is_tracking_deletion: false,
            is_tracking_removal: false,
        }
    }

    /// Returns a new [`SparseSet`] to be used as a custom storage.
    pub fn new_custom_storage() -> (r: SparseSet<T>)
        ensures
            r.wf(),
            r.dense@.len() == 0,
            forall|e: EntityId| !#[trigger] r.contains_spec(e),
    {
        SparseSet::new()
    }

    /// Returns a slice of all the components in this storage, in dense
    /// order.
    pub fn as_slice(&self) -> (r: &[T])
        ensures
            r@ == self.data@,
    {
        self.data.as_slice()
    }

    /// Returns the number of components in the storage.
    pub fn len(&self) -> (r: usize)
        ensures
            r == self.dense@.len(),
    {
        self.dense.len()
    }

    /// Returns `true` if the storage holds no component.
    pub fn is_empty(&self) -> (r: bool)
        ensures
            r == (self.dense@.len() == 0),
    {
        self.dense.is_empty()
    }

    /// Returns the position of `entity`'s component in the `dense` and
    /// `data` buffers, when the entity owns one. The position is only valid
    /// until the storage is next modified.
    pub fn index_of(&self, entity: EntityId) -> (r: Option<usize>)
        requires
            self.wf(),
        ensures
            r is Some <==> self.index_of_spec(entity) is Some,
            r is Some ==> r->0 == self.index_of_spec(entity)->0
                && r->0 < self.dense@.len(),
    {
        let dense_len = self.dense.len();
        match self.sparse.get(entity) {
            Some(sparse_entity) => {
                if !sparse_entity.is_dead() && entity.gen() == sparse_entity.gen() {
                    proof {
                        assert(self.sparse.lookup(entity.index_spec()) == sparse_entity);
                        assert(sparse_entity.index_spec() < dense_len);
                    }
                    Some(sparse_entity.uindex())
                } else {
                    None
                }
            },
            None => None,
        }
    }

    /// Returns `true` if `entity` owns a component in this storage.
    pub fn contains(&self, entity: EntityId) -> (r: bool)
        requires
            self.wf(),
        ensures
            r == self.contains_spec(entity),
    {
        self.index_of(entity).is_some()
    }

    /// Returns the `EntityId` at position `index` of the dense buffer.
    pub fn id_at(&self, index: usize) -> (r: Option<EntityId>)
        ensures
            r == if index < self.dense@.len() {
                Option::Some(self.dense@[index as int])
            } else {
                Option::<EntityId>::None
            },
    {
        if index < self.dense.len() {
            Some(self.dense[index])
        } else {
            None
        }
    }

    /// Returns a reference to `entity`'s component, when it owns one.
    pub fn private_get(&self, entity: EntityId) -> (r: Option<&T>)
        requires
            self.wf(),
        ensures
            r is Some <==> self.get_spec(entity) is Some,
            r is Some ==> *r->0 == self.get_spec(entity)->0,
    {
        match self.index_of(entity) {
            Some(index) => Some(&self.data[index]),
            None => None,
        }
    }
}

/// The parts of a storage that only tracking-log and flag operations touch:
/// true when `post` carries them over from `pre` unchanged.
pub open spec fn logs_and_flags_unchanged<T: Component>(pre: SparseSet<T>, post: SparseSet<T>) -> bool {
    &&& post.deletion_data@ == pre.deletion_data@
    &&& post.removal_data@ == pre.removal_data@
    &&& post.last_insert == pre.last_insert
    &&& post.last_modified == pre.last_modified
    &&& post.is_tracking_insertion == pre.is_tracking_insertion
    &&& post.is_tracking_modification == pre.is_tracking_modification
    &&& post.is_tracking_deletion == pre.is_tracking_deletion
    &&& post.is_tracking_removal == pre.is_tracking_removal
}

/// What [`SparseSet::insert`] does: how `post` relates to `pre` after
/// inserting `value` for `entity` at tick `current`, with `r` the returned
/// prior component.
///
/// A dead sparse entry means a fresh component, appended at the end. A live
/// entry of the same or an older generation means replacement in place: the
/// old component comes back only on an exact generation match, and the slot
/// is rewritten to `entity`'s generation. A live entry of a newer generation
/// means the identifier is stale and nothing happens.
pub open spec fn insert_effect<T: Component>(
    pre: SparseSet<T>,
    post: SparseSet<T>,
    entity: EntityId,
    value: T,
    current: u32,
    r: Option<T>,
) -> bool {
    let e = pre.sparse.lookup(entity.index_spec());
    if e.is_dead_spec() {
        &&& post.dense@ == pre.dense@.push(entity)
        &&& post.data@ == pre.data@.push(value)
        &&& post.insertion_data@ == if pre.is_tracking_insertion {
            pre.insertion_data@.push(current)
        } else {
            pre.insertion_data@
        }
        &&& post.modification_data@ == if pre.is_tracking_modification {
            pre.modification_data@.push(0u32)
        } else {
            pre.modification_data@
        }
        &&& post.sparse.lookup(entity.index_spec()) == EntityId {
            index: pre.dense@.len() as u64,
            generation: entity.gen_spec(),
        }
        &&& forall|i: u64|
            i != entity.index_spec() ==> #[trigger] post.sparse.lookup(i) == pre.sparse.lookup(i)
        &&& r is None
        &&& logs_and_flags_unchanged(pre, post)
    } else if entity.gen_spec() >= e.gen_spec() {
        let pos = e.index_spec() as int;
        &&& post.dense@ == pre.dense@.update(pos, entity)
        &&& post.data@ == pre.data@.update(pos, value)
        &&& post.insertion_data@ == pre.insertion_data@
        &&& post.modification_data@ == if pre.is_tracking_modification {
            pre.modification_data@.update(pos, current)
        } else {
            pre.modification_data@
        }
        &&& post.sparse.lookup(entity.index_spec()) == EntityId {
            index: e.index_spec(),
            generation: entity.gen_spec(),
        }
        &&& forall|i: u64|
            i != entity.index_spec() ==> #[trigger] post.sparse.lookup(i) == pre.sparse.lookup(i)
        &&& r == if entity.gen_spec() == e.gen_spec() {
            Option::Some(pre.data@[pos])
        } else {
            Option::<T>::None
        }
        &&& logs_and_flags_unchanged(pre, post)
    } else {
        &&& post.dense@ == pre.dense@
        &&& post.data@ == pre.data@
        &&& post.insertion_data@ == pre.insertion_data@
        &&& post.modification_data@ == pre.modification_data@
        &&& forall|i: u64| #[trigger] post.sparse.lookup(i) == pre.sparse.lookup(i)
        &&& r is None
        &&& logs_and_flags_unchanged(pre, post)
    }
}

impl<T: Component> SparseSet<T> {
    /// Inserts `value` as `entity`'s component.
    ///
    /// If `entity` had no component, it is appended and, when insertion
    /// tracking is on, stamped with `current`. If `entity` already had one,
    /// the component is replaced in place, the replacement is stamped as a
    /// modification when that tracking is on, and the prior component is
    /// returned when the generations match exactly. A stale `entity` (older
    /// generation than the stored one) changes nothing.
    pub fn insert(&mut self, entity: EntityId, value: T, current: u32) -> (r: Option<T>)
        requires
            old(self).wf(),
            entity.index_spec() <= usize::MAX,
            !entity.is_dead_spec(),
            old(self).dense@.len() < usize::MAX,
        ensures
            final(self).wf(),
            insert_effect(*old(self), *final(self), entity, value, current, r),
    {
        self.sparse.allocate_at(entity);
        let sparse_entity = self.sparse.lookup_at(entity);
        if sparse_entity.is_dead() {
            let dense_len = self.dense.len();
            self.sparse.set(
                entity.index(),
                EntityId::new_from_parts(dense_len as u64, entity.gen()),
            );
            if self.is_tracking_insertion {
                self.insertion_data.push(current);
            }
            if self.is_tracking_modification {
                self.modification_data.push(0);
            }
            self.dense.push(entity);
            self.data.push(value);
            proof {
                let pre = *old(self);
                let post = *self;
                assert forall|k: int| 0 <= k < post.dense@.len() implies {
                    let id = #[trigger] post.dense@[k];
                    &&& id.index_spec() <= usize::MAX
                    &&& !id.is_dead_spec()
                    &&& post.sparse.lookup(id.index_spec()).index_spec() == k
                    &&& post.sparse.lookup(id.index_spec()).gen_spec() == id.gen_spec()
                } by {
                    if k < pre.dense@.len() {
                        assert(post.dense@[k] == pre.dense@[k]);
                        if pre.dense@[k].index_spec() == entity.index_spec() {
                            assert(pre.sparse.lookup(pre.dense@[k].index_spec()).index_spec()
                                == k);
                            assert(false);
                        }
                    }
                }
                assert forall|i: u64| !(#[trigger] post.sparse.lookup(i)).is_dead_spec() implies {
                    &&& post.sparse.lookup(i).index_spec() < post.dense@.len()
                    &&& post.dense@[post.sparse.lookup(i).index_spec() as int].index_spec() == i
                } by {
                    if i != entity.index_spec() {
                        assert(post.sparse.lookup(i) == pre.sparse.lookup(i));
                    }
                }
            }
            None
        } else if entity.gen() >= sparse_entity.gen() {
            proof {
                assert(sparse_entity.index_spec() < self.dense@.len());
            }
            let pos = sparse_entity.uindex();
            let mut replaced = value;
            core::mem::swap(&mut replaced, &mut self.data[pos]);
            self.sparse.set(
                entity.index(),
                EntityId::new_from_parts(sparse_entity.index(), entity.gen()),
            );
            self.dense[pos] = entity;
            if self.is_tracking_modification {
                self.modification_data[pos] = current;
            }
            proof {
                let pre = *old(self);
                let post = *self;
                assert(pre.dense@[pos as int].index_spec() == entity.index_spec());
                assert forall|k: int| 0 <= k < post.dense@.len() implies {
                    let id = #[trigger] post.dense@[k];
                    &&& id.index_spec() <= usize::MAX
                    &&& !id.is_dead_spec()
                    &&& post.sparse.lookup(id.index_spec()).index_spec() == k
                    &&& post.sparse.lookup(id.index_spec()).gen_spec() == id.gen_spec()
                } by {
                    if k != pos as int {
                        assert(post.dense@[k] == pre.dense@[k]);
                        lemma_dense_slots_distinct(&pre, k, pos as int);
                        assert(post.sparse.lookup(pre.dense@[k].index_spec())
                            == pre.sparse.lookup(pre.dense@[k].index_spec()));
                    }
                }
                assert forall|i: u64| !(#[trigger] post.sparse.lookup(i)).is_dead_spec() implies {
                    &&& post.sparse.lookup(i).index_spec() < post.dense@.len()
                    &&& post.dense@[post.sparse.lookup(i).index_spec() as int].index_spec() == i
                } by {
                    if i != entity.index_spec() {
                        assert(post.sparse.lookup(i) == pre.sparse.lookup(i));
                        if !pre.sparse.lookup(i).is_dead_spec() {
                            if pre.sparse.lookup(i).index_spec() as int == pos as int {
                                assert(pre.dense@[pos as int].index_spec() == i);
                                assert(false);
                            }
                        }
                    }
                }
            }
            if entity.gen() == sparse_entity.gen() {
                Some(replaced)
            } else {
                None
            }
        } else {
            None
        }
    }
}

/// How the synchronized buffers change when `entity`'s slot is emptied: the
/// swap-remove of the storage's dense buffers together with the sparse
/// repointing, leaving the deletion and removal logs to the caller.
///
/// If the sparse entry at `entity`'s slot is dead, or holds a newer
/// generation than `entity` (a stale identifier), nothing changes. Otherwise
/// the component at the entry's position is taken out: the last element of
/// each parallel buffer moves into the hole, the moved entity's sparse entry
/// is repointed there, and `entity`'s own entry becomes dead.
pub open spec fn remove_core_effect<T: Component>(
    pre: SparseSet<T>,
    post: SparseSet<T>,
    entity: EntityId,
) -> bool {
    let e = pre.sparse.lookup(entity.index_spec());
    if e.is_dead_spec() || entity.gen_spec() < e.gen_spec() {
        &&& post.dense@ == pre.dense@
        &&& post.data@ == pre.data@
        &&& post.insertion_data@ == pre.insertion_data@
        &&& post.modification_data@ == pre.modification_data@
        &&& post.sparse == pre.sparse
        &&& flags_unchanged(pre, post)
    } else {
        let pos = e.index_spec() as int;
        let last = pre.dense@.len() - 1;
        let moved = pre.dense@[last];
        &&& post.dense@ == pre.dense@.update(pos, moved).drop_last()
        &&& post.data@ == pre.data@.update(pos, pre.data@[last]).drop_last()
        &&& post.insertion_data@ == if pre.is_tracking_insertion {
            pre.insertion_data@.update(pos, pre.insertion_data@[last]).drop_last()
        } else {
            pre.insertion_data@
        }
        &&& post.modification_data@ == if pre.is_tracking_modification {
            pre.modification_data@.update(pos, pre.modification_data@[last]).drop_last()
        } else {
            pre.modification_data@
        }
        &&& post.sparse.lookup(entity.index_spec()).is_dead_spec()
        &&& pos < last ==> post.sparse.lookup(moved.index_spec()) == EntityId {
            index: e.index_spec(),
            generation: moved.gen_spec(),
        }
        &&& forall|i: u64|
            i != entity.index_spec() && i != moved.index_spec()
                ==> #[trigger] post.sparse.lookup(i) == pre.sparse.lookup(i)
        &&& flags_unchanged(pre, post)
    }
}

/// True when `post` carries the tracking flags and wholesale-clear ticks of
/// `pre` over unchanged.
pub open spec fn flags_unchanged<T: Component>(pre: SparseSet<T>, post: SparseSet<T>) -> bool {
    &&& post.last_insert == pre.last_insert
    &&& post.last_modified == pre.last_modified
    &&& post.is_tracking_insertion == pre.is_tracking_insertion
    &&& post.is_tracking_modification == pre.is_tracking_modification
    &&& post.is_tracking_deletion == pre.is_tracking_deletion
    &&& post.is_tracking_removal == pre.is_tracking_removal
}

impl<T: Component> SparseSet<T> {
    /// Empties `entity`'s slot and returns its component on an exact
    /// generation match. A newer generation than the stored one also empties
    /// the slot (the stored component belonged to a stale entity) but
    /// returns nothing; a stale `entity` changes nothing. The tracking logs
    /// are not written.
    pub fn actual_remove(&mut self, entity: EntityId) -> (r: Option<T>)
        requires
            old(self).wf(),
        ensures
            final(self).wf(),
            remove_core_effect(*old(self), *final(self), entity),
            r == old(self).get_spec(entity),
            final(self).deletion_data@ == old(self).deletion_data@,
            final(self).removal_data@ == old(self).removal_data@,
    {
        let sparse_entity_opt = self.sparse.get(entity);
        let sparse_entity = match sparse_entity_opt {
            Some(e) => e,
            None => {
                return None;
            },
        };
        if sparse_entity.is_dead() {
            return None;
        }
        if entity.gen() < sparse_entity.gen() {
            return None;
        }
        let dense_len = self.dense.len();
        proof {
            assert(sparse_entity.index_spec() < dense_len);
        }
        let pos = sparse_entity.uindex();
        self.sparse.set(entity.index(), EntityId::dead());
        self.dense.swap_remove(pos);
        if self.is_tracking_insertion {
            self.insertion_data.swap_remove(pos);
        }
        if self.is_tracking_modification {
            self.modification_data.swap_remove(pos);
        }
        let component = self.data.swap_remove(pos);
        let new_len = self.dense.len();
        proof {
            let pre = *old(self);
            if pos < new_len {
                lemma_dense_slots_distinct(&pre, pos as int, new_len as int);
            }
        }
        if pos < new_len {
            let moved = self.dense[pos];
            proof {
                let pre = *old(self);
                assert(moved == pre.dense@[new_len as int]);
                assert(!pre.sparse.lookup(moved.index_spec()).is_dead_spec());
                assert(self.sparse.lookup(moved.index_spec())
                    == pre.sparse.lookup(moved.index_spec()));
                if !self.sparse.has_bucket(moved.index_spec()) {
                    assert(self.sparse.lookup(moved.index_spec()) == EntityId::dead_spec());
                    assert(false);
                }
            }
            self.sparse.set(moved.index(), EntityId::new_from_parts(pos as u64, moved.gen()));
        }
        proof {
            let pre = *old(self);
            let post = *self;
            let moved = pre.dense@[new_len as int];
            assert forall|k: int| 0 <= k < post.dense@.len() implies {
                let id = #[trigger] post.dense@[k];
                &&& id.index_spec() <= usize::MAX
                &&& !id.is_dead_spec()
                &&& post.sparse.lookup(id.index_spec()).index_spec() == k
                &&& post.sparse.lookup(id.index_spec()).gen_spec() == id.gen_spec()
            } by {
                if k == pos as int && pos < new_len {
                    assert(post.dense@[k] == moved);
                } else {
                    assert(post.dense@[k] == pre.dense@[k]);
                    lemma_dense_slots_distinct(&pre, k, pos as int);
                    if pos < new_len {
                        lemma_dense_slots_distinct(&pre, k, new_len as int);
                    }
                }
            }
            assert forall|i: u64| !(#[trigger] post.sparse.lookup(i)).is_dead_spec() implies {
                &&& post.sparse.lookup(i).index_spec() < post.dense@.len()
                &&& post.dense@[post.sparse.lookup(i).index_spec() as int].index_spec() == i
            } by {
                if i == entity.index_spec() {
                    assert(post.sparse.lookup(i).is_dead_spec());
                } else if pos < new_len && i == moved.index_spec() {
                    assert(post.dense@[pos as int] == moved);
                } else {
                    assert(post.sparse.lookup(i) == pre.sparse.lookup(i));
                    if !pre.sparse.lookup(i).is_dead_spec() {
                        let q = pre.sparse.lookup(i).index_spec() as int;
                        assert(pre.dense@[q].index_spec() == i);
                        if q == pos as int {
                            assert(pre.dense@[pos as int].index_spec() == entity.index_spec());
                            assert(false);
                        }
                        if q == new_len as int {
                            assert(false);
                        }
                        assert(post.dense@[q] == pre.dense@[q]);
                    }
                }
            }
        }
        if entity.gen() == sparse_entity.gen() {
            Some(component)
        } else {
            None
        }
    }

    /// Semantic "remove": empties `entity`'s slot like
    /// [`actual_remove`](Self::actual_remove) and, when a component came
    /// back and removal tracking is on, appends `(entity, current)` to the
    /// removal log.
    pub fn dyn_remove(&mut self, entity: EntityId, current: u32) -> (r: Option<T>)
        requires
            old(self).wf(),
        ensures
            final(self).wf(),
            remove_core_effect(*old(self), *final(self), entity),
            r == old(self).get_spec(entity),
            final(self).deletion_data@ == old(self).deletion_data@,
            final(self).removal_data@ == if r is Some && old(self).is_tracking_removal {
                old(self).removal_data@.push((entity, current))
            } else {
                old(self).removal_data@
            },
    {
        let component = self.actual_remove(entity);
        if component.is_some() && self.is_tracking_removal() {
            self.removal_data.push((entity, current));
        }
        component
    }

    /// Semantic "delete": empties `entity`'s slot like
    /// [`actual_remove`](Self::actual_remove); instead of returning the
    /// extracted component, appends `(entity, current, component)` to the
    /// deletion log when deletion tracking is on. Returns whether a
    /// component of `entity`'s exact generation was deleted.
    pub fn dyn_delete(&mut self, entity: EntityId, current: u32) -> (r: bool)
        requires
            old(self).wf(),
        ensures
            final(self).wf(),
            remove_core_effect(*old(self), *final(self), entity),
            r == (old(self).get_spec(entity) is Some),
            final(self).removal_data@ == old(self).removal_data@,
            final(self).deletion_data@ == if r && old(self).is_tracking_deletion {
                old(self).deletion_data@.push(
                    (entity, current, old(self).get_spec(entity)->0),
                )
            } else {
                old(self).deletion_data@
            },
    {
        match self.actual_remove(entity) {
            Some(component) => {
                if self.is_tracking_deletion() {
                    self.deletion_data.push((entity, current, component));
                }
                true
            },
            None => false,
        }
    }
}

/// What enabling insertion tracking does: the flag is on afterwards; the
/// insertion-tick buffer is unchanged when it already was, and padded with
/// zeros (one per component) when it was not; nothing else changes.
pub open spec fn track_insertion_effect<T: Component>(pre: SparseSet<T>, post: SparseSet<T>) -> bool {
    &&& post.is_tracking_insertion
    &&& post.insertion_data@ == if pre.is_tracking_insertion {
        pre.insertion_data@
    } else {
        Seq::new(pre.dense@.len(), |k: int| 0u32)
    }
    &&& post.dense@ == pre.dense@
    &&& post.data@ == pre.data@
    &&& post.sparse == pre.sparse
    &&& post.modification_data@ == pre.modification_data@
    &&& post.is_tracking_modification == pre.is_tracking_modification
    &&& post.is_tracking_deletion == pre.is_tracking_deletion
    &&& post.is_tracking_removal == pre.is_tracking_removal
    &&& post.deletion_data@ == pre.deletion_data@
    &&& post.removal_data@ == pre.removal_data@
    &&& post.last_insert == pre.last_insert
    &&& post.last_modified == pre.last_modified
}

/// What enabling modification tracking does, exactly as
/// [`track_insertion_effect`] but for the modification-tick buffer.
pub open spec fn track_modification_effect<T: Component>(pre: SparseSet<T>, post: SparseSet<T>) -> bool {
    &&& post.is_tracking_modification
    &&& post.modification_data@ == if pre.is_tracking_modification {
        pre.modification_data@
    } else {
        Seq::new(pre.dense@.len(), |k: int| 0u32)
    }
    &&& post.dense@ == pre.dense@
    &&& post.data@ == pre.data@
    &&& post.sparse == pre.sparse
    &&& post.insertion_data@ == pre.insertion_data@
    &&& post.is_tracking_insertion == pre.is_tracking_insertion
    &&& post.is_tracking_deletion == pre.is_tracking_deletion
    &&& post.is_tracking_removal == pre.is_tracking_removal
    &&& post.deletion_data@ == pre.deletion_data@
    &&& post.removal_data@ == pre.removal_data@
    &&& post.last_insert == pre.last_insert
    &&& post.last_modified == pre.last_modified
}

/// Enabling a tracking kind is idempotent: enabling it a second time
/// changes nothing observable, so enabling it any number of times has the
/// effect of enabling it once.
pub proof fn lemma_track_insertion_idempotent<T: Component>(
    s0: SparseSet<T>,
    s1: SparseSet<T>,
    s2: SparseSet<T>,
)
    requires
        track_insertion_effect(s0, s1),
        track_insertion_effect(s1, s2),
    ensures
        s2.insertion_data@ == s1.insertion_data@,
        s2.modification_data@ == s1.modification_data@,
        s2.dense@ == s1.dense@,
        s2.data@ == s1.data@,
        s2.sparse == s1.sparse,
        s2.deletion_data@ == s1.deletion_data@,
        s2.removal_data@ == s1.removal_data@,
        s2.is_tracking_insertion == s1.is_tracking_insertion,
        s2.is_tracking_modification == s1.is_tracking_modification,
        s2.is_tracking_deletion == s1.is_tracking_deletion,
        s2.is_tracking_removal == s1.is_tracking_removal,
{
}

/// Enabling modification tracking is idempotent in the same way.
pub proof fn lemma_track_modification_idempotent<T: Component>(
    s0: SparseSet<T>,
    s1: SparseSet<T>,
    s2: SparseSet<T>,
)
    requires
        track_modification_effect(s0, s1),
        track_modification_effect(s1, s2),
    ensures
        s2.insertion_data@ == s1.insertion_data@,
        s2.modification_data@ == s1.modification_data@,
        s2.dense@ == s1.dense@,
        s2.data@ == s1.data@,
        s2.sparse == s1.sparse,
        s2.deletion_data@ == s1.deletion_data@,
        s2.removal_data@ == s1.removal_data@,
        s2.is_tracking_insertion == s1.is_tracking_insertion,
        s2.is_tracking_modification == s1.is_tracking_modification,
        s2.is_tracking_deletion == s1.is_tracking_deletion,
        s2.is_tracking_removal == s1.is_tracking_removal,
{
}

impl<T: Component> SparseSet<T> {
    /// Makes this storage record insertion ticks. Components already present
    /// get tick zero. Enabling more than once has the same effect as
    /// enabling once; tracking cannot be turned off.
    pub fn track_insertion(&mut self)
        requires
            old(self).wf(),
        ensures
            final(self).wf(),
            track_insertion_effect(*old(self), *final(self)),
    {
        if !self.is_tracking_insertion {
            self.is_tracking_insertion = true;
            let target = self.dense.len();
            while self.insertion_data.len() < target
                invariant
                    self.insertion_data@.len() <= target,
                    forall|k: int|
                        0 <= k < self.insertion_data@.len() ==> self.insertion_data@[k] == 0u32,
                    *self == (SparseSet {
                        is_tracking_insertion: true,
                        insertion_data: self.insertion_data,
                        ..*old(self)
                    }),
                    target == self.dense@.len(),
                decreases target - self.insertion_data.len(),
            {
                self.insertion_data.push(0);
            }
            proof {
                assert(self.insertion_data@ =~= Seq::new(old(self).dense@.len(), |k: int| 0u32));
            }
        }
    }

    /// Makes this storage record modification ticks. Components already
    /// present get tick zero. Enabling more than once has the same effect as
    /// enabling once; tracking cannot be turned off.
    pub fn track_modification(&mut self)
        requires
            old(self).wf(),
        ensures
            final(self).wf(),
            track_modification_effect(*old(self), *final(self)),
    {
        if !self.is_tracking_modification {
            self.is_tracking_modification = true;
            let target = self.dense.len();
            while self.modification_data.len() < target
                invariant
                    self.modification_data@.len() <= target,
                    forall|k: int|
                        0 <= k < self.modification_data@.len()
                            ==> self.modification_data@[k] == 0u32,
                    *self == (SparseSet {
                        is_tracking_modification: true,
                        modification_data: self.modification_data,
                        ..*old(self)
                    }),
                    target == self.dense@.len(),
                decreases target - self.modification_data.len(),
            {
                self.modification_data.push(0);
            }
            proof {
                assert(self.modification_data@ =~= Seq::new(
                    old(self).dense@.len(),
                    |k: int| 0u32,
                ));
            }
        }
    }

    /// Makes this storage log deleted components. Idempotent; cannot be
    /// turned off.
    pub fn track_deletion(&mut self)
        ensures
            *final(self) == (SparseSet { is_tracking_deletion: true, ..*old(self) }),
    {
        self.is_tracking_deletion = true;
    }

    /// Makes this storage log removals. Idempotent; cannot be turned off.
    pub fn track_removal(&mut self)
        ensures
            *final(self) == (SparseSet { is_tracking_removal: true, ..*old(self) }),
    {
        self.is_tracking_removal = true;
    }

    /// Enables insertion, modification, deletion and removal tracking at
    /// once.
    pub fn track_all(&mut self)
        requires
            old(self).wf(),
        ensures
            final(self).wf(),
            final(self).is_tracking_insertion,
            final(self).is_tracking_modification,
            final(self).is_tracking_deletion,
            final(self).is_tracking_removal,
            final(self).dense@ == old(self).dense@,
            final(self).data@ == old(self).data@,
            final(self).sparse == old(self).sparse,
            final(self).deletion_data@ == old(self).deletion_data@,
            final(self).removal_data@ == old(self).removal_data@,
            final(self).insertion_data@ == if old(self).is_tracking_insertion {
                old(self).insertion_data@
            } else {
                Seq::new(old(self).dense@.len(), |k: int| 0u32)
            },
            final(self).modification_data@ == if old(self).is_tracking_modification {
                old(self).modification_data@
            } else {
                Seq::new(old(self).dense@.len(), |k: int| 0u32)
            },
    {
        self.track_insertion();
        self.track_modification();
        self.track_deletion();
        self.track_removal();
    }

    /// Returns `true` if the storage records insertion ticks.
    pub fn is_tracking_insertion(&self) -> (r: bool)
        ensures
            r == self.is_tracking_insertion,
    {
        self.is_tracking_insertion
    }

    /// Returns `true` if the storage records modification ticks.
    pub fn is_tracking_modification(&self) -> (r: bool)
        ensures
            r == self.is_tracking_modification,
    {
        self.is_tracking_modification
    }

    /// Returns `true` if the storage logs deleted components.
    pub fn is_tracking_deletion(&self) -> (r: bool)
        ensures
            r == self.is_tracking_deletion,
    {
        self.is_tracking_deletion
    }

    /// Returns `true` if the storage logs removals.
    pub fn is_tracking_removal(&self) -> (r: bool)
        ensures
            r == self.is_tracking_removal,
    {
        self.is_tracking_removal
    }

    /// Returns `true` if any kind of tracking is on.
    pub fn is_tracking_any(&self) -> (r: bool)
        ensures
            r == (self.is_tracking_insertion || self.is_tracking_modification
                || self.is_tracking_deletion || self.is_tracking_removal),
    {
        self.is_tracking_insertion() || self.is_tracking_modification()
            || self.is_tracking_deletion() || self.is_tracking_removal()
    }
}

/// Whether a deletion-log entry is kept when trimming with `cutoff`.
pub open spec fn deletion_entry_kept<T: Component>(e: (EntityId, u32, T), cutoff: u32) -> bool {
    is_entry_kept(e.1, cutoff)
}

/// Whether a removal-log entry is kept when trimming with `cutoff`.
pub open spec fn removal_entry_kept(e: (EntityId, u32), cutoff: u32) -> bool {
    is_entry_kept(e.1, cutoff)
}

impl<T: Component> SparseSet<T> {
    /// Clears the *inserted* flag on every component: components stamped
    /// before `current` no longer read as freshly inserted.
    pub fn private_clear_all_inserted(&mut self, current: u32)
        ensures
            *final(self) == (SparseSet { last_insert: current, ..*old(self) }),
    {
        self.last_insert = current;
    }

    /// Clears the *modified* flag on every component: components stamped
    /// before `current` no longer read as modified.
    pub fn private_clear_all_modified(&mut self, current: u32)
        ensures
            *final(self) == (SparseSet { last_modified: current, ..*old(self) }),
    {
        self.last_modified = current;
    }

    /// Clears both the *inserted* and the *modified* flags wholesale.
    pub fn private_clear_all_inserted_and_modified(&mut self, current: u32)
        ensures
            *final(self) == (SparseSet {
                last_insert: current,
                last_modified: current,
                ..*old(self)
            }),
    {
        self.last_insert = current;
        self.last_modified = current;
    }

    /// Clears the whole deletion log.
    pub fn clear_all_deleted(&mut self)
        ensures
            final(self).deletion_data@.len() == 0,
            *final(self) == (SparseSet { deletion_data: final(self).deletion_data, ..*old(self) }),
    {
        self.deletion_data.clear();
    }

    /// Trims the deletion log with `timestamp`: keeps exactly the entries
    /// whose tick is younger than the cutoff under the wraparound-safe
    /// comparison.
    #[verifier::loop_isolation(false)]
    pub fn clear_all_deleted_older_than_timestamp(&mut self, timestamp: TrackingTimestamp)
        ensures
            final(self).deletion_data@ == old(self).deletion_data@.filter(
                |e: (EntityId, u32, T)| deletion_entry_kept(e, timestamp.0),
            ),
            *final(self) == (SparseSet { deletion_data: final(self).deletion_data, ..*old(self) }),
    {
        let mut source: Vec<(EntityId, u32, T)> = Vec::new();
        core::mem::swap(&mut source, &mut self.deletion_data);
        let ghost src0 = source@;
        let ghost pred = |e: (EntityId, u32, T)| deletion_entry_kept(e, timestamp.0);
        let mut rev: Vec<(EntityId, u32, T)> = Vec::new();
        while source.len() > 0
            invariant
                rev@.len() + source@.len() == src0.len(),
                source@ == src0.take(source@.len() as int),
                forall|j: int| 0 <= j < rev@.len() ==> rev@[j] == src0[src0.len() - 1 - j],
            decreases source.len(),
        {
            let e = source.pop().unwrap();
            rev.push(e);
        }
        while rev.len() > 0
            invariant
                rev@.len() <= src0.len(),
                forall|j: int| 0 <= j < rev@.len() ==> rev@[j] == src0[src0.len() - 1 - j],
                self.deletion_data@ == src0.take(src0.len() - rev@.len()).filter(pred),
                *self == (SparseSet { deletion_data: self.deletion_data, ..*old(self) }),
            decreases rev.len(),
        {
            let ghost processed = src0.len() - rev@.len();
            let e = rev.pop().unwrap();
            proof {
                assert(e == src0[processed]);
            }
            let last = e.1.wrapping_sub(HALF_TRACKING_RANGE);
            if is_track_within_bounds(timestamp.0, last, e.1) {
                proof {
                    crate::tracking::lemma_kept_is_within_window(e.1, timestamp.0);
                }
                self.deletion_data.push(e);
            } else {
                proof {
                    crate::tracking::lemma_kept_is_within_window(e.1, timestamp.0);
                }
            }
            proof {
                let prefix = src0.take(processed);
                assert(src0.take(processed + 1) =~= prefix.push(e));
                prefix.lemma_filter_push(e, pred);
            }
        }
        proof {
            assert(src0.take(src0.len() as int) =~= src0);
        }
    }

    /// Clears the whole removal log.
    pub fn clear_all_removed(&mut self)
        ensures
            final(self).removal_data@.len() == 0,
            *final(self) == (SparseSet { removal_data: final(self).removal_data, ..*old(self) }),
    {
        self.removal_data.clear();
    }

    /// Trims the removal log with `timestamp`: keeps exactly the entries
    /// whose tick is younger than the cutoff under the wraparound-safe
    /// comparison.
    #[verifier::loop_isolation(false)]
    pub fn clear_all_removed_older_than_timestamp(&mut self, timestamp: TrackingTimestamp)
        ensures
            final(self).removal_data@ == old(self).removal_data@.filter(
                |e: (EntityId, u32)| removal_entry_kept(e, timestamp.0),
            ),
            *final(self) == (SparseSet { removal_data: final(self).removal_data, ..*old(self) }),
    {
        let mut source: Vec<(EntityId, u32)> = Vec::new();
        core::mem::swap(&mut source, &mut self.removal_data);
        let ghost src0 = source@;
        let ghost pred = |e: (EntityId, u32)| removal_entry_kept(e, timestamp.0);
        let mut rev: Vec<(EntityId, u32)> = Vec::new();
        while source.len() > 0
            invariant
                rev@.len() + source@.len() == src0.len(),
                source@ == src0.take(source@.len() as int),
                forall|j: int| 0 <= j < rev@.len() ==> rev@[j] == src0[src0.len() - 1 - j],
            decreases source.len(),
        {
            let e = source.pop().unwrap();
            rev.push(e);
        }
        while rev.len() > 0
            invariant
                rev@.len() <= src0.len(),
                forall|j: int| 0 <= j < rev@.len() ==> rev@[j] == src0[src0.len() - 1 - j],
                self.removal_data@ == src0.take(src0.len() - rev@.len()).filter(pred),
                *self == (SparseSet { removal_data: self.removal_data, ..*old(self) }),
            decreases rev.len(),
        {
            let ghost processed = src0.len() - rev@.len();
            let e = rev.pop().unwrap();
            proof {
                assert(e == src0[processed]);
            }
            let last = e.1.wrapping_sub(HALF_TRACKING_RANGE);
            if is_track_within_bounds(timestamp.0, last, e.1) {
                proof {
                    crate::tracking::lemma_kept_is_within_window(e.1, timestamp.0);
                }
                self.removal_data.push(e);
            } else {
                proof {
                    crate::tracking::lemma_kept_is_within_window(e.1, timestamp.0);
                }
            }
            proof {
                let prefix = src0.take(processed);
                assert(src0.take(processed + 1) =~= prefix.push(e));
                prefix.lemma_filter_push(e, pred);
            }
        }
        proof {
            assert(src0.take(src0.len() as int) =~= src0);
        }
    }

    /// Clears both the deletion and the removal log.
    pub fn clear_all_removed_and_deleted(&mut self)
        ensures
            final(self).deletion_data@.len() == 0,
            final(self).removal_data@.len() == 0,
            *final(self) == (SparseSet {
                deletion_data: final(self).deletion_data,
                removal_data: final(self).removal_data,
                ..*old(self)
            }),
    {
        self.deletion_data.clear();
        self.removal_data.clear();
    }

    /// Trims both the deletion and the removal log with `timestamp`,
    /// keeping exactly the entries whose tick is younger than the cutoff.
    pub fn clear_all_removed_and_deleted_older_than_timestamp(
        &mut self,
        timestamp: TrackingTimestamp,
    )
        ensures
            final(self).deletion_data@ == old(self).deletion_data@.filter(
                |e: (EntityId, u32, T)| deletion_entry_kept(e, timestamp.0),
            ),
            final(self).removal_data@ == old(self).removal_data@.filter(
                |e: (EntityId, u32)| removal_entry_kept(e, timestamp.0),
            ),
            *final(self) == (SparseSet {
                deletion_data: final(self).deletion_data,
                removal_data: final(self).removal_data,
                ..*old(self)
            }),
    {
        self.clear_all_deleted_older_than_timestamp(timestamp);
        self.clear_all_removed_older_than_timestamp(timestamp);
    }

    /// Reserves room for at least `additional` more components; the
    /// contents do not change.
    pub fn reserve(&mut self, additional: usize)
        requires
            old(self).dense@.len() + additional <= usize::MAX,
        ensures
            final(self).dense@ == old(self).dense@,
            final(self).data@ == old(self).data@,
            *final(self) == (SparseSet {
                dense: final(self).dense,
                data: final(self).data,
                ..*old(self)
            }),
    {
        self.dense.reserve(additional);
        self.data.reserve(additional);
    }

    /// Checks that every tracking kind requested by the `tracking` bitmask
    /// is enabled, and reports the mask otherwise.
    pub fn check_tracking(&self, tracking: u32) -> (r: Result<(), StorageError>)
        ensures
            r is Ok <==> {
                &&& tracking & TRACK_INSERTION != 0 ==> self.is_tracking_insertion
                &&& tracking & TRACK_MODIFICATION != 0 ==> self.is_tracking_modification
                &&& tracking & TRACK_DELETION != 0 ==> self.is_tracking_deletion
                &&& tracking & TRACK_REMOVAL != 0 ==> self.is_tracking_removal
            },
            r is Err ==> r == Result::<(), StorageError>::Err(
                StorageError::TrackingNotEnabled(tracking),
            ),
    {
        if (tracking & TRACK_INSERTION != 0 && !self.is_tracking_insertion()) || (tracking
            & TRACK_MODIFICATION != 0 && !self.is_tracking_modification()) || (tracking
            & TRACK_DELETION != 0 && !self.is_tracking_deletion()) || (tracking & TRACK_REMOVAL
            != 0 && !self.is_tracking_removal()) {
            Err(StorageError::TrackingNotEnabled(tracking))
        } else {
            Ok(())
        }
    }

    /// Enables every tracking kind requested by the `tracking` bitmask.
    pub fn enable_tracking(&mut self, tracking: u32)
        requires
            old(self).wf(),
        ensures
            final(self).wf(),
            final(self).is_tracking_insertion == (old(self).is_tracking_insertion || tracking
                & TRACK_INSERTION != 0),
            final(self).is_tracking_modification == (old(self).is_tracking_modification
                || tracking & TRACK_MODIFICATION != 0),
            final(self).is_tracking_deletion == (old(self).is_tracking_deletion || tracking
                & TRACK_DELETION != 0),
            final(self).is_tracking_removal == (old(self).is_tracking_removal || tracking
                & TRACK_REMOVAL != 0),
            final(self).dense@ == old(self).dense@,
            final(self).data@ == old(self).data@,
            final(self).sparse == old(self).sparse,
            final(self).deletion_data@ == old(self).deletion_data@,
            final(self).removal_data@ == old(self).removal_data@,
    {
        if tracking & TRACK_INSERTION != 0 {
            self.track_insertion();
        }
        if tracking & TRACK_MODIFICATION != 0 {
            self.track_modification();
        }
        if tracking & TRACK_DELETION != 0 {
            self.track_deletion();
        }
        if tracking & TRACK_REMOVAL != 0 {
            self.track_removal();
        }
    }
}

/// Relies on `slice::swap`: exchanges the elements at positions `i` and
/// `j`, which both lie inside the slice.
#[verifier::external_body]
fn vec_swap<T>(v: &mut Vec<T>, i: usize, j: usize)
    requires
        i < old(v).len(),
        j < old(v).len(),
    ensures
        final(v)@ == old(v)@.update(i as int, old(v)@[j as int]).update(j as int, old(v)@[i as int]),
{
    v.as_mut_slice().swap(i, j);
}

impl<T: Component> SparseSet<T> {
    /// Rewrites every live sparse entry to dead; nothing else changes.
    /// After this the dense buffers no longer match the sparse array: the
    /// caller must empty them to restore the invariant.
    #[verifier::loop_isolation(false)]
    fn kill_sparse_entries(&mut self)
        requires
            old(self).wf(),
        ensures
            forall|i: u64| (#[trigger] final(self).sparse.lookup(i)).is_dead_spec(),
            final(self).sparse.wf(),
            *final(self) == (SparseSet { sparse: final(self).sparse, ..*old(self) }),
    {
        let n = self.dense.len();
        let mut k: usize = 0;
        while k < n
            invariant
                k <= n,
                self.sparse.wf(),
                *self == (SparseSet { sparse: self.sparse, ..*old(self) }),
                forall|j: int|
                    0 <= j < k ==> (#[trigger] self.sparse.lookup(
                        old(self).dense@[j].index_spec(),
                    )).is_dead_spec(),
                forall|i: u64|
                    #[trigger] self.sparse.lookup(i) == old(self).sparse.lookup(i)
                        || self.sparse.lookup(i).is_dead_spec(),
                forall|i: u64|
                    #[trigger] self.sparse.has_bucket(i) == old(self).sparse.has_bucket(i),
            decreases n - k,
        {
            let id = self.dense[k];
            proof {
                assert(old(self).sparse.lookup(id.index_spec()).index_spec() == k);
                if !old(self).sparse.has_bucket(id.index_spec()) {
                    assert(old(self).sparse.lookup(id.index_spec()) == EntityId::dead_spec());
                    assert(false);
                }
            }
            self.sparse.set(id.index(), EntityId::dead());
            k += 1;
        }
        proof {
            assert forall|i: u64| (#[trigger] self.sparse.lookup(i)).is_dead_spec() by {
                if !self.sparse.lookup(i).is_dead_spec() {
                    assert(self.sparse.lookup(i) == old(self).sparse.lookup(i));
                    let q = old(self).sparse.lookup(i).index_spec() as int;
                    assert(old(self).dense@[q].index_spec() == i);
                }
            }
        }
    }

    /// Deletes every component in the storage. When deletion tracking is
    /// on, each `(entity, current, component)` triple is appended to the
    /// deletion log, in dense order.
    #[verifier::loop_isolation(false)]
    pub fn private_clear(&mut self, current: u32)
        requires
            old(self).wf(),
        ensures
            final(self).wf(),
            final(self).dense@.len() == 0,
            final(self).data@.len() == 0,
            final(self).insertion_data@.len() == 0,
            final(self).modification_data@.len() == 0,
            forall|i: u64| (#[trigger] final(self).sparse.lookup(i)).is_dead_spec(),
            forall|e: EntityId| !#[trigger] final(self).contains_spec(e),
            final(self).deletion_data@ == if old(self).is_tracking_deletion {
                old(self).deletion_data@ + Seq::new(
                    old(self).dense@.len(),
                    |k: int| (old(self).dense@[k], current, old(self).data@[k]),
                )
            } else {
                old(self).deletion_data@
            },
            final(self).removal_data@ == old(self).removal_data@,
            flags_unchanged(*old(self), *final(self)),
    {
        self.kill_sparse_entries();
        let ghost killed_sparse = self.sparse;
        let n = self.dense.len();
        if self.is_tracking_deletion() {
            let mut comps: Vec<T> = Vec::new();
            core::mem::swap(&mut comps, &mut self.data);
            let ghost data0 = comps@;
            let mut rev: Vec<T> = Vec::new();
            while comps.len() > 0
                invariant
                    rev@.len() + comps@.len() == n,
                    comps@ == data0.take(comps@.len() as int),
                    forall|j: int| 0 <= j < rev@.len() ==> rev@[j] == data0[n - 1 - j],
                decreases comps.len(),
            {
                let c = comps.pop().unwrap();
                rev.push(c);
            }
            let mut k: usize = 0;
            while k < n
                invariant
                    k <= n,
                    rev@.len() == n - k,
                    forall|j: int| 0 <= j < rev@.len() ==> rev@[j] == data0[n - 1 - j],
                    self.deletion_data@ == old(self).deletion_data@ + Seq::new(
                        k as nat,
                        |j: int| (old(self).dense@[j], current, data0[j]),
                    ),
                    *self == (SparseSet {
                        sparse: self.sparse,
                        data: self.data,
                        deletion_data: self.deletion_data,
                        ..*old(self)
                    }),
                    self.sparse == killed_sparse,
                    self.data@.len() == 0,
                decreases n - k,
            {
                let c = rev.pop().unwrap();
                let id = self.dense[k];
                self.deletion_data.push((id, current, c));
                proof {
                    assert(self.deletion_data@ =~= old(self).deletion_data@ + Seq::new(
                        (k + 1) as nat,
                        |j: int| (old(self).dense@[j], current, data0[j]),
                    ));
                }
                k += 1;
            }
        } else {
            self.data.clear();
        }
        self.dense.clear();
        self.insertion_data.clear();
        self.modification_data.clear();
    }

    /// Empties the storage and hands all its components out in a
    /// [`SparseSetDrain`], which yields them in dense order. When removal
    /// tracking is on, `(entity, current)` is logged for every drained
    /// entity.
    #[verifier::loop_isolation(false)]
    pub fn private_drain(&mut self, current: u32) -> (r: SparseSetDrain<T>)
        requires
            old(self).wf(),
        ensures
            final(self).wf(),
            final(self).dense@.len() == 0,
            final(self).data@.len() == 0,
            final(self).insertion_data@.len() == 0,
            final(self).modification_data@.len() == 0,
            forall|e: EntityId| !#[trigger] final(self).contains_spec(e),
            final(self).deletion_data@ == old(self).deletion_data@,
            final(self).removal_data@ == if old(self).is_tracking_removal {
                old(self).removal_data@ + Seq::new(
                    old(self).dense@.len(),
                    |k: int| (old(self).dense@[k], current),
                )
            } else {
                old(self).removal_data@
            },
            flags_unchanged(*old(self), *final(self)),
            r.wf(),
            r.remaining_ids() == old(self).dense@,
            r.remaining() == old(self).data@,
    {
        let n = self.dense.len();
        if self.is_tracking_removal() {
            let mut k: usize = 0;
            while k < n
                invariant
                    k <= n,
                    self.removal_data@ == old(self).removal_data@ + Seq::new(
                        k as nat,
                        |j: int| (old(self).dense@[j], current),
                    ),
                    *self == (SparseSet { removal_data: self.removal_data, ..*old(self) }),
                decreases n - k,
            {
                let id = self.dense[k];
                self.removal_data.push((id, current));
                proof {
                    assert(self.removal_data@ =~= old(self).removal_data@ + Seq::new(
                        (k + 1) as nat,
                        |j: int| (old(self).dense@[j], current),
                    ));
                }
                k += 1;
            }
        }
        self.kill_sparse_entries();
        let mut ids: Vec<EntityId> = Vec::new();
        core::mem::swap(&mut ids, &mut self.dense);
        let mut comps: Vec<T> = Vec::new();
        core::mem::swap(&mut comps, &mut self.data);
        self.insertion_data.clear();
        self.modification_data.clear();
        let ghost ids0 = ids@;
        let ghost data0 = comps@;
        let mut ids_rev: Vec<EntityId> = Vec::new();
        while ids.len() > 0
            invariant
                ids_rev@.len() + ids@.len() == n,
                ids@ == ids0.take(ids@.len() as int),
                forall|j: int| 0 <= j < ids_rev@.len() ==> ids_rev@[j] == ids0[n - 1 - j],
            decreases ids.len(),
        {
            let id = ids.pop().unwrap();
            ids_rev.push(id);
        }
        let mut comps_rev: Vec<T> = Vec::new();
        while comps.len() > 0
            invariant
                comps_rev@.len() + comps@.len() == n,
                comps@ == data0.take(comps@.len() as int),
                forall|j: int| 0 <= j < comps_rev@.len() ==> comps_rev@[j] == data0[n - 1 - j],
            decreases comps.len(),
        {
            let c = comps.pop().unwrap();
            comps_rev.push(c);
        }
        let r = SparseSetDrain { ids_rev, comps_rev };
        proof {
            assert(r.remaining_ids() =~= ids0);
            assert(r.remaining() =~= data0);
        }
        r
    }
}

/// The components drained out of a [`SparseSet`], yielded in dense order by
/// repeated calls of [`next`](SparseSetDrain::next).
pub struct SparseSetDrain<T> {
    pub ids_rev: Vec<EntityId>,
    pub comps_rev: Vec<T>,
}

impl<T> SparseSetDrain<T> {
    /// The ids and components line up.
    pub open spec fn wf(self) -> bool {
        self.ids_rev@.len() == self.comps_rev@.len()
    }

    /// The components not yet yielded, in the order they will come out.
    pub open spec fn remaining(self) -> Seq<T> {
        Seq::new(self.comps_rev@.len(), |j: int| self.comps_rev@[self.comps_rev@.len() - 1 - j])
    }

    /// The entities not yet yielded, in the order they will come out.
    pub open spec fn remaining_ids(self) -> Seq<EntityId> {
        Seq::new(self.ids_rev@.len(), |j: int| self.ids_rev@[self.ids_rev@.len() - 1 - j])
    }

    /// Yields the next drained component, front first.
    pub fn next(&mut self) -> (r: Option<T>)
        requires
            old(self).wf(),
        ensures
            final(self).wf(),
            r is Some <==> old(self).remaining().len() > 0,
            old(self).remaining().len() > 0 ==> {
                &&& r == Option::Some(old(self).remaining()[0])
                &&& final(self).remaining() =~= old(self).remaining().skip(1)
                &&& final(self).remaining_ids() =~= old(self).remaining_ids().skip(1)
            },
            old(self).remaining().len() == 0 ==> r is None && final(self).remaining()
                == old(self).remaining() && final(self).remaining_ids() == old(
                self,
            ).remaining_ids(),
    {
        let _popped_id = self.ids_rev.pop();
        match self.comps_rev.pop() {
            Some(c) => {
                proof {
                    assert(self.remaining() =~= old(self).remaining().skip(1));
                    assert(self.remaining_ids() =~= old(self).remaining_ids().skip(1));
                }
                Some(c)
            },
            None => None,
        }
    }

    /// Turns the drain into one that yields `(entity, component)` pairs.
    pub fn with_id(self) -> (r: SparseSetDrainWithId<T>)
        ensures
            r.remaining() == self.remaining(),
            r.remaining_ids() == self.remaining_ids(),
            self.wf() ==> r.wf(),
    {
        SparseSetDrainWithId { ids_rev: self.ids_rev, comps_rev: self.comps_rev }
    }
}

/// The contents drained out of a [`SparseSet`], yielded as
/// `(entity, component)` pairs in dense order.
pub struct SparseSetDrainWithId<T> {
    pub ids_rev: Vec<EntityId>,
    pub comps_rev: Vec<T>,
}

impl<T> SparseSetDrainWithId<T> {
    /// The ids and components line up.
    pub open spec fn wf(self) -> bool {
        self.ids_rev@.len() == self.comps_rev@.len()
    }

    /// The components not yet yielded, in the order they will come out.
    pub open spec fn remaining(self) -> Seq<T> {
        Seq::new(self.comps_rev@.len(), |j: int| self.comps_rev@[self.comps_rev@.len() - 1 - j])
    }

    /// The entities not yet yielded, in the order they will come out.
    pub open spec fn remaining_ids(self) -> Seq<EntityId> {
        Seq::new(self.ids_rev@.len(), |j: int| self.ids_rev@[self.ids_rev@.len() - 1 - j])
    }

    /// Yields the next drained entity and component, front first.
    pub fn next(&mut self) -> (r: Option<(EntityId, T)>)
        requires
            old(self).wf(),
        ensures
            final(self).wf(),
            r is Some <==> old(self).remaining().len() > 0,
            old(self).remaining().len() > 0 ==> {
                &&& r == Option::Some(
                    (old(self).remaining_ids()[0], old(self).remaining()[0]),
                )
                &&& final(self).remaining() =~= old(self).remaining().skip(1)
                &&& final(self).remaining_ids() =~= old(self).remaining_ids().skip(1)
            },
    {
        let id = match self.ids_rev.pop() {
            Some(id) => id,
            None => {
                return None;
            },
        };
        match self.comps_rev.pop() {
            Some(c) => {
                proof {
                    assert(self.remaining() =~= old(self).remaining().skip(1));
                    assert(self.remaining_ids() =~= old(self).remaining_ids().skip(1));
                }
                Some((id, c))
            },
            None => None,
        }
    }
}

/// The mirror image of a comparator's answer.
pub open spec fn ordering_reverse(o: core::cmp::Ordering) -> core::cmp::Ordering {
    match o {
        core::cmp::Ordering::Less => core::cmp::Ordering::Greater,
        core::cmp::Ordering::Equal => core::cmp::Ordering::Equal,
        core::cmp::Ordering::Greater => core::cmp::Ordering::Less,
    }
}

/// `x` compares at or below `y` under `compare`: no possible answer to
/// `compare(x, y)` is `Greater`.
pub open spec fn comparator_le<T, F: Fn(&T, &T) -> core::cmp::Ordering>(
    compare: F,
    x: &T,
    y: &T,
) -> bool {
    forall|o: core::cmp::Ordering|
        #[trigger] call_ensures(compare, (x, y), o) ==> o != core::cmp::Ordering::Greater
}

/// A comparator that behaves as one total order: its answers are
/// deterministic, swapping the arguments mirrors the answer, and the
/// at-or-below relation it induces is transitive.
pub open spec fn comparator_consistent<T, F: Fn(&T, &T) -> core::cmp::Ordering>(
    compare: F,
) -> bool {
    &&& forall|x: &T, y: &T, o1: core::cmp::Ordering, o2: core::cmp::Ordering|
        #[trigger] call_ensures(compare, (x, y), o1) && #[trigger] call_ensures(
            compare,
            (x, y),
            o2,
        ) ==> o1 == o2
    &&& forall|x: &T, y: &T, o1: core::cmp::Ordering, o2: core::cmp::Ordering|
        #[trigger] call_ensures(compare, (x, y), o1) && #[trigger] call_ensures(
            compare,
            (y, x),
            o2,
        ) ==> o1 == ordering_reverse(o2)
    &&& forall|x: &T, y: &T, z: &T|
        #[trigger] comparator_le(compare, x, y) && #[trigger] comparator_le(compare, y, z)
            ==> comparator_le(compare, x, z)
}

/// Under a consistent comparator nothing compares above itself.
proof fn lemma_comparator_le_refl<T, F: Fn(&T, &T) -> core::cmp::Ordering>(compare: F, x: &T)
    requires
        comparator_consistent(compare),
    ensures
        comparator_le(compare, x, x),
{
    assert forall|o: core::cmp::Ordering|
        #[trigger] call_ensures(compare, (x, x), o) implies o
        != core::cmp::Ordering::Greater by {
        assert(o == ordering_reverse(o));
    }
}

/// Every pair of the first `upto` components is in comparator order.
pub open spec fn sorted_prefix<T, F: Fn(&T, &T) -> core::cmp::Ordering>(
    compare: F,
    data: Seq<T>,
    upto: int,
) -> bool {
    forall|k1: int, k2: int|
        0 <= k1 < k2 < upto ==> #[trigger] comparator_le(compare, &data[k1], &data[k2])
}

/// Every one of the first `upto` components compares at or below every
/// later one.
pub open spec fn prefix_below_suffix<T, F: Fn(&T, &T) -> core::cmp::Ordering>(
    compare: F,
    data: Seq<T>,
    upto: int,
) -> bool {
    forall|k: int, j: int|
        0 <= k < upto <= j < data.len() ==> #[trigger] comparator_le(compare, &data[k], &data[j])
}

impl<T: Component> SparseSet<T> {
    /// Exchanges the components at dense positions `i` and `j`, moving the
    /// two entities with them and repointing their sparse entries. No
    /// entity gains or loses its component.
    fn swap_positions(&mut self, i: usize, j: usize)
        requires
            old(self).wf(),
            i < old(self).dense@.len(),
            j < old(self).dense@.len(),
            i != j,
        ensures
            final(self).wf(),
            final(self).dense@ == old(self).dense@.update(i as int, old(self).dense@[j as int])
                .update(j as int, old(self).dense@[i as int]),
            final(self).data@ == old(self).data@.update(i as int, old(self).data@[j as int])
                .update(j as int, old(self).data@[i as int]),
            forall|e: EntityId| #[trigger] final(self).get_spec(e) == old(self).get_spec(e),
            forall|e: EntityId|
                #[trigger] final(self).contains_spec(e) == old(self).contains_spec(e),
            *final(self) == (SparseSet {
                sparse: final(self).sparse,
                dense: final(self).dense,
                data: final(self).data,
                ..*old(self)
            }),
    {
        let count = self.dense.len();
        let a = self.dense[i];
        let b = self.dense[j];
        proof {
            assert(i < count && j < count);
            lemma_dense_slots_distinct(old(self), i as int, j as int);
            if !self.sparse.has_bucket(a.index_spec()) {
                assert(self.sparse.lookup(a.index_spec()) == EntityId::dead_spec());
                assert(false);
            }
            if !self.sparse.has_bucket(b.index_spec()) {
                assert(self.sparse.lookup(b.index_spec()) == EntityId::dead_spec());
                assert(false);
            }
        }
        vec_swap(&mut self.dense, i, j);
        vec_swap(&mut self.data, i, j);
        self.sparse.set(a.index(), EntityId::new_from_parts(j as u64, a.gen()));
        self.sparse.set(b.index(), EntityId::new_from_parts(i as u64, b.gen()));
        proof {
            let pre = *old(self);
            let post = *self;
            assert forall|k: int| 0 <= k < post.dense@.len() implies {
                let id = #[trigger] post.dense@[k];
                &&& id.index_spec() <= usize::MAX
                &&& !id.is_dead_spec()
                &&& post.sparse.lookup(id.index_spec()).index_spec() == k
                &&& post.sparse.lookup(id.index_spec()).gen_spec() == id.gen_spec()
            } by {
                if k == i as int {
                    assert(post.dense@[k] == b);
                } else if k == j as int {
                    assert(post.dense@[k] == a);
                } else {
                    assert(post.dense@[k] == pre.dense@[k]);
                    lemma_dense_slots_distinct(&pre, k, i as int);
                    lemma_dense_slots_distinct(&pre, k, j as int);
                }
            }
            assert forall|q: u64| !(#[trigger] post.sparse.lookup(q)).is_dead_spec() implies {
                &&& post.sparse.lookup(q).index_spec() < post.dense@.len()
                &&& post.dense@[post.sparse.lookup(q).index_spec() as int].index_spec() == q
            } by {
                if q == a.index_spec() {
                    assert(post.dense@[j as int] == a);
                } else if q == b.index_spec() {
                    assert(post.dense@[i as int] == b);
                } else {
                    assert(post.sparse.lookup(q) == pre.sparse.lookup(q));
                    if !pre.sparse.lookup(q).is_dead_spec() {
                        let p = pre.sparse.lookup(q).index_spec() as int;
                        assert(pre.dense@[p].index_spec() == q);
                        assert(p != i as int && p != j as int);
                        assert(post.dense@[p] == pre.dense@[p]);
                    }
                }
            }
            assert forall|e: EntityId| #[trigger] post.get_spec(e) == pre.get_spec(e) by {
                if e.index_spec() == a.index_spec() {
                    assert(post.data@[j as int] == pre.data@[i as int]);
                } else if e.index_spec() == b.index_spec() {
                    assert(post.data@[i as int] == pre.data@[j as int]);
                } else {
                    assert(post.sparse.lookup(e.index_spec())
                        == pre.sparse.lookup(e.index_spec()));
                    if !pre.sparse.lookup(e.index_spec()).is_dead_spec() {
                        let p = pre.sparse.lookup(e.index_spec()).index_spec() as int;
                        assert(pre.dense@[p].index_spec() == e.index_spec());
                        assert(p != i as int && p != j as int);
                        assert(post.data@[p] == pre.data@[p]);
                    }
                }
            }
        }
    }

    /// Sorts the storage with the comparator `compare`, permuting `dense`
    /// and `data` consistently and rewriting the sparse entries; equal
    /// elements may not keep their order. Every entity keeps the component
    /// it had, and when the comparator behaves as one total order
    /// ([`comparator_consistent`]), the components end up in that order.
    #[verifier::loop_isolation(false)]
    #[verifier::rlimit(100)]
    pub fn sort_unstable_by<F: Fn(&T, &T) -> core::cmp::Ordering>(&mut self, compare: F)
        requires
            old(self).wf(),
            forall|x: &T, y: &T| #[trigger] call_requires(compare, (x, y)),
        ensures
            final(self).wf(),
            final(self).dense@.len() == old(self).dense@.len(),
            forall|e: EntityId| #[trigger] final(self).get_spec(e) == old(self).get_spec(e),
            forall|e: EntityId|
                #[trigger] final(self).contains_spec(e) == old(self).contains_spec(e),
            *final(self) == (SparseSet {
                sparse: final(self).sparse,
                dense: final(self).dense,
                data: final(self).data,
                ..*old(self)
            }),
            comparator_consistent(compare) ==> sorted_prefix(
                compare,
                final(self).data@,
                final(self).data@.len() as int,
            ),
    {
        let n = self.dense.len();
        let mut i: usize = 0;
        while i < n
            invariant
                i <= n,
                self.wf(),
                self.dense@.len() == n,
                self.data@.len() == n,
                forall|e: EntityId| #[trigger] self.get_spec(e) == old(self).get_spec(e),
                forall|e: EntityId|
                    #[trigger] self.contains_spec(e) == old(self).contains_spec(e),
                *self == (SparseSet {
                    sparse: self.sparse,
                    dense: self.dense,
                    data: self.data,
                    ..*old(self)
                }),
                comparator_consistent(compare) ==> sorted_prefix(compare, self.data@, i as int),
                comparator_consistent(compare) ==> prefix_below_suffix(
                    compare,
                    self.data@,
                    i as int,
                ),
            decreases n - i,
        {
            let ghost outer_data = self.data@;
            let mut min_index = i;
            let mut j = i + 1;
            proof {
                if comparator_consistent(compare) {
                    lemma_comparator_le_refl(compare, &outer_data[i as int]);
                }
            }
            while j < n
                invariant
                    i < n,
                    i <= min_index < n,
                    i < j <= n,
                    self.data@ == outer_data,
                    comparator_consistent(compare) ==> forall|p: int|
                        i <= p < j ==> #[trigger] comparator_le(
                            compare,
                            &outer_data[min_index as int],
                            &outer_data[p],
                        ),
                decreases n - j,
            {
                let ordering = {
                    let ref_j = &self.data[j];
                    let ref_min = &self.data[min_index];
                    let ordering = compare(ref_j, ref_min);
                    proof {
                        if comparator_consistent(compare) {
                            if ordering == core::cmp::Ordering::Less {
                                assert forall|o: core::cmp::Ordering|
                                    #[trigger] call_ensures(
                                        compare,
                                        (ref_j, ref_min),
                                        o,
                                    ) implies o != core::cmp::Ordering::Greater by {
                                    assert(o == ordering);
                                }
                                assert(comparator_le(compare, ref_j, ref_min));
                                assert forall|p: int| i <= p < j + 1 implies #[trigger] comparator_le(
                                    compare,
                                    &outer_data[j as int],
                                    &outer_data[p],
                                ) by {
                                    if p < j {
                                        assert(comparator_le(
                                            compare,
                                            &outer_data[min_index as int],
                                            &outer_data[p],
                                        ));
                                        assert(comparator_le(
                                            compare,
                                            &outer_data[j as int],
                                            &outer_data[min_index as int],
                                        ));
                                    } else {
                                        lemma_comparator_le_refl(compare, &outer_data[j as int]);
                                    }
                                }
                            } else {
                                assert forall|o2: core::cmp::Ordering|
                                    #[trigger] call_ensures(
                                        compare,
                                        (ref_min, ref_j),
                                        o2,
                                    ) implies o2 != core::cmp::Ordering::Greater by {
                                    assert(ordering == ordering_reverse(o2));
                                }
                                assert(comparator_le(compare, ref_min, ref_j));
                                assert(comparator_le(
                                    compare,
                                    &outer_data[min_index as int],
                                    &outer_data[j as int],
                                ));
                            }
                        }
                    }
                    ordering
                };
                if matches!(ordering, core::cmp::Ordering::Less) {
                    min_index = j;
                }
                j += 1;
            }
            let ghost m = min_index as int;
            proof {
                if comparator_consistent(compare) {
                    assert(forall|p: int|
                        i <= p < n ==> #[trigger] comparator_le(
                            compare,
                            &outer_data[m],
                            &outer_data[p],
                        ));
                }
            }
            if min_index != i {
                self.swap_positions(i, min_index);
            }
            proof {
                assert(self.data@ =~= outer_data.update(i as int, outer_data[m]).update(
                    m,
                    outer_data[i as int],
                ));
                if comparator_consistent(compare) {
                    let new_data = self.data@;
                    assert forall|k1: int, k2: int| 0 <= k1 < k2 < i + 1 implies
                        #[trigger] comparator_le(compare, &new_data[k1], &new_data[k2]) by {
                        if k2 < i {
                            assert(comparator_le(compare, &outer_data[k1], &outer_data[k2]));
                        } else {
                            assert(new_data[k2] == outer_data[m]);
                            assert(comparator_le(compare, &outer_data[k1], &outer_data[m]));
                        }
                    }
                    assert forall|k: int, jj: int| 0 <= k < i + 1 <= jj < n implies
                        #[trigger] comparator_le(compare, &new_data[k], &new_data[jj]) by {
                        if k < i {
                            if jj == m {
                                assert(new_data[jj] == outer_data[i as int]);
                                assert(comparator_le(
                                    compare,
                                    &outer_data[k],
                                    &outer_data[i as int],
                                ));
                            } else {
                                assert(new_data[jj] == outer_data[jj]);
                                assert(comparator_le(compare, &outer_data[k], &outer_data[jj]));
                            }
                        } else {
                            assert(new_data[k] == outer_data[m]);
                            if jj == m {
                                assert(new_data[jj] == outer_data[i as int]);
                                assert(comparator_le(
                                    compare,
                                    &outer_data[m],
                                    &outer_data[i as int],
                                ));
                            } else {
                                assert(new_data[jj] == outer_data[jj]);
                                assert(comparator_le(compare, &outer_data[m], &outer_data[jj]));
                            }
                        }
                    }
                    assert(sorted_prefix(compare, self.data@, i + 1));
                    assert(prefix_below_suffix(compare, self.data@, i + 1));
                }
            }
            i += 1;
        }
        proof {
            if comparator_consistent(compare) {
                assert(sorted_prefix(compare, self.data@, n as int));
            }
        }
    }
}

impl<T: Component> SparseSet<T> {
    /// Applies `f` to the two distinct components of `a` and `b`: both are
    /// handed to `f` by value and replaced by what it returns, and both are
    /// stamped as modified at `current` when modification tracking is on.
    /// Refuses an entity without a component here, and two entities that
    /// point at the same component.
    #[verifier::loop_isolation(false)]
    pub fn private_apply_mut<R, F: FnOnce(T, T) -> (T, T, R)>(
        &mut self,
        a: EntityId,
        b: EntityId,
        f: F,
        current: u32,
    ) -> (r: Result<R, StorageError>)
        requires
            old(self).wf(),
            forall|x: T, y: T| #[trigger] call_requires(f, (x, y)),
        ensures
            final(self).wf(),
            r is Ok <==> (old(self).index_of_spec(a) is Some && old(self).index_of_spec(b) is Some
                && old(self).index_of_spec(a) != old(self).index_of_spec(b)),
            r is Err ==> *final(self) == *old(self),
            r is Err ==> r == Result::<R, StorageError>::Err(
                if old(self).index_of_spec(a) is Some && old(self).index_of_spec(b) is Some {
                    StorageError::IdenticalIds
                } else {
                    StorageError::MissingComponent
                },
            ),
            r is Ok ==> ({
                let pa = old(self).index_of_spec(a)->0;
                let pb = old(self).index_of_spec(b)->0;
                &&& exists|x: T, y: T|
                    call_ensures(
                        f,
                        (old(self).data@[pa], old(self).data@[pb]),
                        (x, y, r->Ok_0),
                    ) && final(self).data@ == old(self).data@.update(pa, x).update(pb, y)
                &&& final(self).modification_data@ == if old(self).is_tracking_modification {
                    old(self).modification_data@.update(pa, current).update(pb, current)
                } else {
                    old(self).modification_data@
                }
                &&& *final(self) == (SparseSet {
                    data: final(self).data,
                    modification_data: final(self).modification_data,
                    ..*old(self)
                })
            }),
    {
        let pa = match self.index_of(a) {
            Some(p) => p,
            None => {
                return Err(StorageError::MissingComponent);
            },
        };
        let pb = match self.index_of(b) {
            Some(p) => p,
            None => {
                return Err(StorageError::MissingComponent);
            },
        };
        if pa == pb {
            return Err(StorageError::IdenticalIds);
        }
        let n = self.data.len();
        let ghost data0 = self.data@;
        vec_swap(&mut self.data, pa, n - 1);
        let x = match self.data.pop() {
            Some(x) => x,
            None => {
                proof {
                    assert(false);
                }
                return Err(StorageError::MissingComponent);
            },
        };
        proof {
            assert(x == data0[pa as int]);
            assert(self.data@ =~= data0.update(pa as int, data0[n - 1]).take(n - 1));
        }
        let pb2 = if pb == n - 1 {
            pa
        } else {
            pb
        };
        let m = self.data.len();
        let ghost data2 = self.data@;
        proof {
            assert(data2[pb2 as int] == data0[pb as int]);
        }
        vec_swap(&mut self.data, pb2, m - 1);
        let y = match self.data.pop() {
            Some(y) => y,
            None => {
                proof {
                    assert(false);
                }
                return Err(StorageError::MissingComponent);
            },
        };
        proof {
            assert(y == data0[pb as int]);
        }
        let (x2, y2, result) = f(x, y);
        self.data.push(y2);
        vec_swap(&mut self.data, pb2, m - 1);
        proof {
            assert(self.data@ =~= data2.update(pb2 as int, y2));
        }
        self.data.push(x2);
        vec_swap(&mut self.data, pa, n - 1);
        proof {
            assert(self.data@ =~= data0.update(pa as int, x2).update(pb as int, y2));
        }
        if self.is_tracking_modification() {
            self.modification_data[pa] = current;
            self.modification_data[pb] = current;
        }
        Ok(result)
    }

    /// Applies `f` to `a`'s component (by value, replaced by what `f`
    /// returns) and a shared view of `b`'s; only `a` is stamped as modified
    /// at `current`. Refuses an entity without a component here, and two
    /// entities that point at the same component.
    #[verifier::loop_isolation(false)]
    pub fn private_apply<R, F: FnOnce(T, &T) -> (T, R)>(
        &mut self,
        a: EntityId,
        b: EntityId,
        f: F,
        current: u32,
    ) -> (r: Result<R, StorageError>)
        requires
            old(self).wf(),
            forall|x: T, y: &T| #[trigger] call_requires(f, (x, y)),
        ensures
            final(self).wf(),
            r is Ok <==> (old(self).index_of_spec(a) is Some && old(self).index_of_spec(b) is Some
                && old(self).index_of_spec(a) != old(self).index_of_spec(b)),
            r is Err ==> *final(self) == *old(self),
            r is Err ==> r == Result::<R, StorageError>::Err(
                if old(self).index_of_spec(a) is Some && old(self).index_of_spec(b) is Some {
                    StorageError::IdenticalIds
                } else {
                    StorageError::MissingComponent
                },
            ),
            r is Ok ==> (exists|x: T, yb: &T|
                *yb == old(self).data@[old(self).index_of_spec(b)->0] && call_ensures(
                    f,
                    (old(self).data@[old(self).index_of_spec(a)->0], yb),
                    (x, r->Ok_0),
                ) && final(self).data@ == old(self).data@.update(
                    old(self).index_of_spec(a)->0,
                    x,
                )),
            r is Ok ==> final(self).modification_data@ == if old(
                self,
            ).is_tracking_modification {
                old(self).modification_data@.update(old(self).index_of_spec(a)->0, current)
            } else {
                old(self).modification_data@
            },
            r is Ok ==> *final(self) == (SparseSet {
                data: final(self).data,
                modification_data: final(self).modification_data,
                ..*old(self)
            }),
    {
        let pa = match self.index_of(a) {
            Some(p) => p,
            None => {
                return Err(StorageError::MissingComponent);
            },
        };
        let pb = match self.index_of(b) {
            Some(p) => p,
            None => {
                return Err(StorageError::MissingComponent);
            },
        };
        if pa == pb {
            return Err(StorageError::IdenticalIds);
        }
        let n = self.data.len();
        let ghost data0 = self.data@;
        vec_swap(&mut self.data, pa, n - 1);
        let x = match self.data.pop() {
            Some(x) => x,
            None => {
                proof {
                    assert(false);
                }
                return Err(StorageError::MissingComponent);
            },
        };
        proof {
            assert(x == data0[pa as int]);
        }
        let ghost xv = x;
        let pb2 = if pb == n - 1 {
            pa
        } else {
            pb
        };
        proof {
            assert(self.data@[pb2 as int] == data0[pb as int]);
        }
        let y_ref = &self.data[pb2];
        let (x2, result) = f(x, y_ref);
        proof {
            assert(*y_ref == data0[pb as int]);
            assert(exists|yb: &T|
                *yb == data0[pb as int] && call_ensures(f, (xv, yb), (x2, result)));
        }
        let ghost x2v = x2;
        self.data.push(x2);
        vec_swap(&mut self.data, pa, n - 1);
        proof {
            assert(self.data@ =~= data0.update(pa as int, x2v));
            let yb = choose|yb: &T|
                *yb == data0[pb as int] && call_ensures(f, (xv, yb), (x2v, result));
            assert(*yb == data0[pb as int] && call_ensures(f, (data0[pa as int], yb), (x2v, result))
                && self.data@ == data0.update(pa as int, x2v));
        }
        if self.is_tracking_modification() {
            self.modification_data[pa] = current;
        }
        let out: Result<R, StorageError> = Ok(result);
        proof {
            let pa_s = old(self).index_of_spec(a)->0;
            let pb_s = old(self).index_of_spec(b)->0;
            assert(pa_s == pa as int && pb_s == pb as int);
            assert(self.data@ == data0.update(pa as int, x2v));
            let yb = choose|yb: &T|
                *yb == data0[pb as int] && call_ensures(f, (xv, yb), (x2v, out->Ok_0));
            assert(*yb == old(self).data@[pb_s] && call_ensures(
                f,
                (old(self).data@[pa_s], yb),
                (x2v, out->Ok_0),
            ) && self.data@ == old(self).data@.update(pa_s, x2v));
            assert(exists|xw: T, ybw: &T|
                *ybw == old(self).data@[pb_s] && call_ensures(
                    f,
                    (old(self).data@[pa_s], ybw),
                    (xw, out->Ok_0),
                ) && self.data@ == old(self).data@.update(pa_s, xw));
        }
        out
    }
}

/// A cursor over the dense positions of a storage, the fast way to walk
/// components: position `k` pairs `id_at(k)` with `as_slice()[k]`.
pub struct FastIter {
    /// The next position to yield.
    pub current: usize,
    /// One past the last position to yield.
    pub end: usize,
}

impl FastIter {
    /// Yields the next dense position, in increasing order.
    pub fn next(&mut self) -> (r: Option<usize>)
        ensures
            r is Some <==> old(self).current < old(self).end,
            old(self).current < old(self).end ==> r == Option::Some(old(self).current)
                && final(self).current == old(self).current + 1,
            old(self).current >= old(self).end ==> *final(self) == *old(self),
            final(self).end == old(self).end,
    {
        if self.current < self.end {
            let position = self.current;
            self.current = position + 1;
            Some(position)
        } else {
            None
        }
    }
}

impl<T: Component> SparseSet<T> {
    /// Returns a cursor over all dense positions, unless the storage stamps
    /// modifications: walking such a storage without stamping would lose
    /// updates, so fast iteration is refused there.
    pub fn try_fast_iter(&self) -> (r: Option<FastIter>)
        ensures
            r is Some <==> !self.is_tracking_modification,
            r is Some ==> r->0.current == 0 && r->0.end == self.dense@.len(),
    {
        if self.is_tracking_modification() {
            None
        } else {
            Some(FastIter { current: 0, end: self.dense.len() })
        }
    }
}

/// Positions in the dense buffer determine entities: two dense entries at
/// different positions belong to different entity slots.
pub proof fn lemma_dense_slots_distinct<T: Component>(s: &SparseSet<T>, k1: int, k2: int)
    requires
        s.wf(),
        0 <= k1 < s.dense@.len(),
        0 <= k2 < s.dense@.len(),
        k1 != k2,
    ensures
        s.dense@[k1].index_spec() != s.dense@[k2].index_spec(),
{
    assert(s.sparse.lookup(s.dense@[k1].index_spec()).index_spec() == k1);
    assert(s.sparse.lookup(s.dense@[k2].index_spec()).index_spec() == k2);
}

/// For any position `i` of the dense buffer, the sparse entry at that
/// entity's slot points back at `i`, and the generations match.
pub proof fn lemma_dense_sparse_mirror<T: Component>(s: &SparseSet<T>, i: int)
    requires
        s.wf(),
        0 <= i < s.dense@.len(),
    ensures
        s.sparse.lookup(s.dense@[i].index_spec()).index_spec() == i,
        s.sparse.lookup(s.dense@[i].index_spec()).gen_spec() == s.dense@[i].gen_spec(),
{
}

/// Whether inserting for `entity` takes effect on `pre`: the sparse entry
/// at `entity`'s slot is dead, or holds the same or an older generation.
pub open spec fn insert_accepts<T: Component>(pre: SparseSet<T>, entity: EntityId) -> bool {
    let e = pre.sparse.lookup(entity.index_spec());
    e.is_dead_spec() || entity.gen_spec() >= e.gen_spec()
}

/// An accepted insert stores exactly `value` for `entity`.
pub proof fn lemma_insert_inserts<T: Component>(
    pre: SparseSet<T>,
    post: SparseSet<T>,
    entity: EntityId,
    value: T,
    current: u32,
    r: Option<T>,
)
    requires
        pre.wf(),
        post.wf(),
        !entity.is_dead_spec(),
        pre.dense@.len() < usize::MAX,
        insert_effect(pre, post, entity, value, current, r),
        insert_accepts(pre, entity),
    ensures
        post.get_spec(entity) == Option::Some(value),
{
    let e = pre.sparse.lookup(entity.index_spec());
    if e.is_dead_spec() {
        assert(post.dense@.len() == pre.dense@.len() + 1);
    }
}

/// An insert for `entity` leaves every other entity slot exactly as it
/// was: entities with a different slot index keep their component or their
/// absence.
pub proof fn lemma_insert_other_slots<T: Component>(
    pre: SparseSet<T>,
    post: SparseSet<T>,
    entity: EntityId,
    value: T,
    current: u32,
    r: Option<T>,
    q: EntityId,
)
    requires
        pre.wf(),
        post.wf(),
        !entity.is_dead_spec(),
        insert_effect(pre, post, entity, value, current, r),
        q.index_spec() != entity.index_spec(),
    ensures
        post.get_spec(q) == pre.get_spec(q),
{
    let e = pre.sparse.lookup(entity.index_spec());
    assert(post.sparse.lookup(q.index_spec()) == pre.sparse.lookup(q.index_spec()));
    if !pre.sparse.lookup(q.index_spec()).is_dead_spec() {
        let p = pre.sparse.lookup(q.index_spec()).index_spec() as int;
        assert(pre.dense@[p].index_spec() == q.index_spec());
        if !e.is_dead_spec() && entity.gen_spec() >= e.gen_spec() {
            assert(pre.dense@[e.index_spec() as int].index_spec() == entity.index_spec());
            assert(p != e.index_spec() as int);
        }
    }
}

/// After an accepted insert for `entity`, no *other* identifier of the same
/// slot owns a component: in particular a stale identifier (an older
/// generation of the slot) stays absent, whatever it was before.
pub proof fn lemma_insert_same_slot<T: Component>(
    pre: SparseSet<T>,
    post: SparseSet<T>,
    entity: EntityId,
    value: T,
    current: u32,
    r: Option<T>,
    q: EntityId,
)
    requires
        pre.wf(),
        post.wf(),
        !entity.is_dead_spec(),
        insert_effect(pre, post, entity, value, current, r),
        insert_accepts(pre, entity),
        q.index_spec() == entity.index_spec(),
        q != entity,
    ensures
        !post.contains_spec(q),
{
}

/// Emptying `entity`'s slot leaves `entity` without a component, whatever
/// the slot held before.
pub proof fn lemma_remove_removes<T: Component>(pre: SparseSet<T>, post: SparseSet<T>, entity: EntityId)
    requires
        pre.wf(),
        post.wf(),
        remove_core_effect(pre, post, entity),
    ensures
        !post.contains_spec(entity),
{
}

/// Emptying `entity`'s slot leaves every entity of a different slot index
/// with exactly the component (or absence) it had.
pub proof fn lemma_remove_other_slots<T: Component>(
    pre: SparseSet<T>,
    post: SparseSet<T>,
    entity: EntityId,
    q: EntityId,
)
    requires
        pre.wf(),
        post.wf(),
        pre.dense@.len() <= usize::MAX,
        remove_core_effect(pre, post, entity),
        q.index_spec() != entity.index_spec(),
    ensures
        post.get_spec(q) == pre.get_spec(q),
{
    let e = pre.sparse.lookup(entity.index_spec());
    if !(e.is_dead_spec() || entity.gen_spec() < e.gen_spec()) {
        let pos = e.index_spec() as int;
        let last = pre.dense@.len() - 1;
        let moved = pre.dense@[last];
        assert(pre.dense@[pos].index_spec() == entity.index_spec());
        if q.index_spec() == moved.index_spec() {
            assert(pre.sparse.lookup(moved.index_spec()).index_spec() == last);
            assert(pre.sparse.lookup(moved.index_spec()).gen_spec() == moved.gen_spec());
            if pos < last {
                assert(post.sparse.lookup(q.index_spec()) == EntityId {
                    index: e.index_spec(),
                    generation: moved.gen_spec(),
                });
                assert(post.data@[pos] == pre.data@[last]);
            } else {
                assert(moved.index_spec() == entity.index_spec());
            }
        } else {
            assert(post.sparse.lookup(q.index_spec()) == pre.sparse.lookup(q.index_spec()));
            if !pre.sparse.lookup(q.index_spec()).is_dead_spec() {
                let p = pre.sparse.lookup(q.index_spec()).index_spec() as int;
                assert(pre.dense@[p].index_spec() == q.index_spec());
                assert(p != pos);
                assert(p != last);
                assert(post.dense@[p] == pre.dense@[p]);
                assert(post.data@[p] == pre.data@[p]);
            }
        }
    }
}

/// The round trip: inserting a fresh component and then removing it yields
/// the component back and leaves the entity absent again.
pub proof fn lemma_insert_remove_round_trip<T: Component>(
    s0: SparseSet<T>,
    s1: SparseSet<T>,
    s2: SparseSet<T>,
    entity: EntityId,
    value: T,
    current: u32,
    r1: Option<T>,
)
    requires
        s0.wf(),
        s1.wf(),
        s2.wf(),
        !entity.is_dead_spec(),
        s0.dense@.len() < usize::MAX,
        insert_accepts(s0, entity),
        insert_effect(s0, s1, entity, value, current, r1),
        remove_core_effect(s1, s2, entity),
    ensures
        s1.get_spec(entity) == Option::Some(value),
        !s2.contains_spec(entity),
{
    lemma_insert_inserts(s0, s1, entity, value, current, r1);
    lemma_remove_removes(s1, s2, entity);
}

/// `index_of` finds a position exactly when `contains` holds, exactly when
/// `get` finds a component.
pub proof fn lemma_lookups_agree<T: Component>(s: &SparseSet<T>, entity: EntityId)
    requires
        s.wf(),
    ensures
        (s.index_of_spec(entity) is Some) == s.contains_spec(entity),
        s.contains_spec(entity) == (s.get_spec(entity) is Some),
{
}

} // verus!
