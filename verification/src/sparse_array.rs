//! The sparse half of a sparse set: a two-level page table from entity slot
//! indexes to entries.
//!
//! Pages ("buckets") are allocated lazily on the first write into their
//! range; an index whose bucket is missing reads as the dead sentinel. Each
//! entry packs the position of the owning entity inside the dense arrays
//! (its index part) together with the generation of that entity (its
//! generation part).

use crate::entity_id::EntityId;
use vstd::prelude::*;

verus! {

/// Number of entries per lazily allocated bucket.
pub const BUCKET_SIZE: usize = 32;

/// The position of `index` inside the page table: which bucket, and where in
/// that bucket.
proof fn lemma_bucket_split(i: int)
    requires
        i >= 0,
    ensures
        0 <= i / (BUCKET_SIZE as int) <= i,
        0 <= i % (BUCKET_SIZE as int) < BUCKET_SIZE as int,
        i == (BUCKET_SIZE as int) * (i / (BUCKET_SIZE as int)) + i % (BUCKET_SIZE as int),
{
    vstd::arithmetic::div_mod::lemma_fundamental_div_mod(i, BUCKET_SIZE as int);
    vstd::arithmetic::div_mod::lemma_mod_bound(i, BUCKET_SIZE as int);
    vstd::arithmetic::div_mod::lemma_div_pos_is_pos(i, BUCKET_SIZE as int);
}

/// A paged map from entity slot index to [`EntityId`] entry; missing pages
/// read as [`EntityId::dead`].
#[derive(Debug)]
pub struct SparseArray {
    pub buckets: Vec<Option<Vec<EntityId>>>,
}

impl SparseArray {
    /// Every allocated bucket has exactly [`BUCKET_SIZE`] entries.
    pub open spec fn wf(self) -> bool {
        forall|b: int|
            0 <= b < self.buckets@.len() && self.buckets@[b] is Some
                ==> (#[trigger] self.buckets@[b])->0@.len() == BUCKET_SIZE
    }

    /// Whether the bucket covering `index` has been allocated.
    pub open spec fn has_bucket(self, index: u64) -> bool {
        &&& (index as int / BUCKET_SIZE as int) < self.buckets@.len()
        &&& self.buckets@[index as int / BUCKET_SIZE as int] is Some
    }

    /// The entry stored for `index`; the dead sentinel when its bucket is
    /// missing.
    pub open spec fn lookup(self, index: u64) -> EntityId {
        if self.has_bucket(index) {
            self.buckets@[index as int / BUCKET_SIZE as int]->0@[index as int % BUCKET_SIZE as int]
        } else {
            EntityId::dead_spec()
        }
    }

    /// Returns an empty sparse array: no bucket allocated, every index dead.
    pub fn new() -> (r: SparseArray)
        ensures
            r.wf(),
            forall|i: u64| #[trigger] r.lookup(i) == EntityId::dead_spec(),
            forall|i: u64| !#[trigger] r.has_bucket(i),
    {
        let r = SparseArray { buckets: Vec::new() };
        proof {
            assert forall|i: u64| !#[trigger] r.has_bucket(i) by {
                lemma_bucket_split(i as int);
            }
        }
        r
    }

    /// Makes sure the bucket covering `entity`'s index exists, filling any
    /// newly created bucket with the dead sentinel. No entry changes value.
    pub fn allocate_at(&mut self, entity: EntityId)
        requires
            old(self).wf(),
            entity.index_spec() <= usize::MAX,
        ensures
            final(self).wf(),
            final(self).has_bucket(entity.index_spec()),
            forall|i: u64| #[trigger] final(self).lookup(i) == old(self).lookup(i),
            forall|i: u64| old(self).has_bucket(i) ==> final(self).has_bucket(i),
    {
        proof {
            lemma_bucket_split(entity.index_spec() as int);
        }
        let bucket: usize = (entity.index() / (BUCKET_SIZE as u64)) as usize;
        while self.buckets.len() <= bucket
            invariant
                self.wf(),
                self.buckets@.len() >= old(self).buckets@.len(),
                forall|b: int|
                    0 <= b < old(self).buckets@.len()
                        ==> #[trigger] self.buckets@[b] == old(self).buckets@[b],
                forall|b: int|
                    old(self).buckets@.len() <= b < self.buckets@.len()
                        ==> #[trigger] self.buckets@[b] is None,
            decreases bucket + 1 - self.buckets.len(),
        {
            self.buckets.push(None);
        }
        let ghost pre_fill = *self;
        if self.buckets[bucket].is_none() {
            let mut fresh: Vec<EntityId> = Vec::new();
            while fresh.len() < BUCKET_SIZE
                invariant
                    fresh@.len() <= BUCKET_SIZE,
                    forall|k: int| 0 <= k < fresh@.len() ==> fresh@[k] == EntityId::dead_spec(),
                decreases BUCKET_SIZE - fresh.len(),
            {
                fresh.push(EntityId::dead());
            }
            self.buckets[bucket] = Some(fresh);
        }
        proof {
            assert forall|i: u64| #[trigger] self.lookup(i) == old(self).lookup(i) by {
                lemma_bucket_split(i as int);
                let b = i as int / BUCKET_SIZE as int;
                if b == bucket as int {
                    if pre_fill.buckets@[b] is Some {
                        assert(self.buckets@[b] == pre_fill.buckets@[b]);
                    } else {
                        assert(self.lookup(i) == EntityId::dead_spec());
                        assert(!old(self).has_bucket(i));
                    }
                } else if b < old(self).buckets@.len() {
                    assert(self.buckets@[b] == old(self).buckets@[b]);
                } else {
                    assert(!old(self).has_bucket(i));
                    if self.has_bucket(i) {
                        assert(self.lookup(i) == EntityId::dead_spec());
                    }
                }
            }
            assert forall|i: u64| old(self).has_bucket(i) implies #[trigger] self.has_bucket(
                i,
            ) by {
                lemma_bucket_split(i as int);
            }
        }
    }

    /// Reads the entry for `entity`'s index: the stored entry when its
    /// bucket exists, absent otherwise.
    pub fn get(&self, entity: EntityId) -> (r: Option<EntityId>)
        requires
            self.wf(),
        ensures
            r == if self.has_bucket(entity.index_spec()) {
                Option::Some(self.lookup(entity.index_spec()))
            } else {
                Option::<EntityId>::None
            },
    {
        proof {
            lemma_bucket_split(entity.index_spec() as int);
        }
        let bucket_wide: u64 = entity.index() / (BUCKET_SIZE as u64);
        if bucket_wide >= self.buckets.len() as u64 {
            return None;
        }
        let bucket: usize = bucket_wide as usize;
        match &self.buckets[bucket] {
            Some(entries) => {
                let offset: usize = (entity.index() % (BUCKET_SIZE as u64)) as usize;
                Some(entries[offset])
            },
            None => None,
        }
    }

    /// Reads the entry for `entity`'s index; its bucket must exist.
    pub fn lookup_at(&self, entity: EntityId) -> (r: EntityId)
        requires
            self.wf(),
            self.has_bucket(entity.index_spec()),
        ensures
            r == self.lookup(entity.index_spec()),
    {
        proof {
            lemma_bucket_split(entity.index_spec() as int);
        }
        let bucket_wide: u64 = entity.index() / (BUCKET_SIZE as u64);
        let count = self.buckets.len();
        proof {
            assert(bucket_wide < count);
        }
        let bucket: usize = bucket_wide as usize;
        let offset: usize = (entity.index() % (BUCKET_SIZE as u64)) as usize;
        match &self.buckets[bucket] {
            Some(entries) => entries[offset],
            None => {
                proof {
                    assert(false);
                }
                EntityId::dead()
            },
        }
    }

    /// Writes `value` as the entry for `index`; its bucket must exist.
    /// Every other entry keeps its value.
    pub fn set(&mut self, index: u64, value: EntityId)
        requires
            old(self).wf(),
            old(self).has_bucket(index),
        ensures
            final(self).wf(),
            final(self).lookup(index) == value,
            forall|i: u64| i != index ==> #[trigger] final(self).lookup(i) == old(self).lookup(i),
            forall|i: u64| final(self).has_bucket(i) == old(self).has_bucket(i),
    {
        proof {
            lemma_bucket_split(index as int);
        }
        let bucket_wide: u64 = index / (BUCKET_SIZE as u64);
        let count = self.buckets.len();
        proof {
            assert(bucket_wide < count);
        }
        let bucket: usize = bucket_wide as usize;
        let offset: usize = (index % (BUCKET_SIZE as u64)) as usize;
        let slot = &mut self.buckets[bucket];
        match slot {
            Some(entries) => {
                entries[offset] = value;
            },
            None => {
                proof {
                    assert(false);
                }
            },
        }
        proof {
            assert forall|i: u64| i != index implies #[trigger] self.lookup(i) == old(
                self,
            ).lookup(i) by {
                lemma_bucket_split(i as int);
            }
            assert forall|i: u64| #[trigger] self.has_bucket(i) == old(self).has_bucket(i) by {
                lemma_bucket_split(i as int);
            }
        }
    }
}

} // verus!
