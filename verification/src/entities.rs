//! The entity allocator: generational slot recycling.
//!
//! Each slot of the table carries its current generation and whether it is
//! occupied. Killing an entity frees its slot and bumps the generation, so
//! the old identifier can never pass a liveness check again; generating a
//! new entity reuses a free slot at its bumped generation, or extends the
//! table. Generations only ever grow, which is what makes stale-identifier
//! detection sound: the one deliberate exception is [`Entities::spawn`],
//! which forces a chosen identifier alive when the slot has not moved past
//! its generation.

use crate::entity_id::EntityId;
use vstd::prelude::*;

verus! {

/// The entity allocator. Generation bumps saturate at the largest value
/// rather than wrap: a slot whose generation is exhausted is never recycled.
pub struct Entities {
    /// Current generation of each slot.
    pub generations: Vec<u32>,
    /// Whether each slot currently holds a live entity.
    pub alive: Vec<bool>,
    /// Indexes of slots that may be free; entries can be stale (revived by
    /// [`Entities::spawn`]), so they are checked again when popped.
    pub free: Vec<u64>,
}

impl Entities {
    /// The two slot columns line up and every free-list entry names a slot.
    pub open spec fn wf(self) -> bool {
        &&& self.alive@.len() == self.generations@.len()
        &&& forall|j: int|
            0 <= j < self.free@.len() ==> (#[trigger] self.free@[j]) < self.generations@.len()
    }

    /// Whether `id` is alive: its slot exists, is occupied, and the slot's
    /// generation is exactly `id`'s.
    pub open spec fn is_alive_spec(self, id: EntityId) -> bool {
        &&& id.index_spec() < self.generations@.len()
        &&& self.alive@[id.index_spec() as int]
        &&& self.generations@[id.index_spec() as int] == id.gen_spec()
    }

    /// Returns an empty allocator.
    pub fn new() -> (r: Entities)
        ensures
            r.wf(),
            r.generations@.len() == 0,
            forall|q: EntityId| !#[trigger] r.is_alive_spec(q),
    {
        Entities { generations: Vec::new(), alive: Vec::new(), free: Vec::new() }
    }

    /// Returns `true` if `id` is alive.
    pub fn is_alive(&self, id: EntityId) -> (r: bool)
        requires
            self.wf(),
        ensures
            r == self.is_alive_spec(id),
    {
        let count = self.generations.len();
        if id.index() >= count as u64 {
            return false;
        }
        let idx = id.uindex();
        self.alive[idx] && self.generations[idx] == id.gen()
    }
}

/// Whether the slot `f` can be handed out again: it exists, is not
/// occupied, and its generation has not saturated.
pub open spec fn usable_slot(s: Entities, f: u64) -> bool {
    &&& f < s.generations@.len()
    &&& !s.alive@[f as int]
    &&& s.generations@[f as int] < u32::MAX
}

/// The slot the free list hands out next: its entries are scanned from the
/// back, skipping stale ones (revived or saturated slots), and the first
/// usable entry wins; `None` when none is usable.
pub open spec fn next_reusable(s: Entities, free: Seq<u64>) -> Option<u64>
    decreases free.len(),
{
    if free.len() == 0 {
        Option::None
    } else if usable_slot(s, free.last()) {
        Option::Some(free.last())
    } else {
        next_reusable(s, free.drop_last())
    }
}

/// What [`Entities::generate`] does: the returned identifier `r` names a
/// slot that was not occupied and now is, at the slot's current generation,
/// which is below the saturation value. The slot is the next usable entry
/// of the free list — a freed slot is reused, at its bumped generation —
/// and only when the free list has none does the table grow by one fresh
/// slot at generation zero. No other identifier's liveness changes and no
/// existing slot's generation moves.
pub open spec fn generate_effect(pre: Entities, post: Entities, r: EntityId) -> bool {
    &&& r.index_spec() < post.generations@.len()
    &&& r.gen_spec() < u32::MAX
    &&& post.generations@[r.index_spec() as int] == r.gen_spec()
    &&& !pre.is_alive_spec(r)
    &&& post.is_alive_spec(r)
    &&& forall|q: EntityId| q != r ==> #[trigger] post.is_alive_spec(q) == pre.is_alive_spec(q)
    &&& pre.generations@.len() <= post.generations@.len() <= pre.generations@.len() + 1
    &&& forall|x: int|
        0 <= x < pre.generations@.len() ==> #[trigger] post.generations@[x]
            == pre.generations@[x]
    &&& match next_reusable(pre, pre.free@) {
        Option::Some(f) => r.index_spec() == f && r.gen_spec() == pre.generations@[f as int]
            && post.generations@.len() == pre.generations@.len(),
        Option::None => r.index_spec() == pre.generations@.len() && r.gen_spec() == 0
            && post.generations@.len() == pre.generations@.len() + 1,
    }
}

/// What [`Entities::delete`] does when it returns `true`: `id` was alive
/// and no identifier of its slot is alive afterwards; the slot's generation
/// is bumped past `id`'s, saturating instead of wrapping. Other slots are
/// untouched. When it returns `false`, `id` was not alive and nothing
/// changed.
pub open spec fn delete_effect(pre: Entities, post: Entities, id: EntityId, r: bool) -> bool {
    if r {
        &&& pre.is_alive_spec(id)
        &&& post.generations@.len() == pre.generations@.len()
        &&& post.alive@ == pre.alive@.update(id.index_spec() as int, false)
        &&& post.generations@ == if id.gen_spec() < u32::MAX {
            pre.generations@.update(id.index_spec() as int, (id.gen_spec() + 1) as u32)
        } else {
            pre.generations@
        }
        &&& post.free@ == if id.gen_spec() < u32::MAX {
            pre.free@.push(id.index_spec())
        } else {
            pre.free@
        }
    } else {
        &&& !pre.is_alive_spec(id)
        &&& post.generations@ == pre.generations@
        &&& post.alive@ == pre.alive@
        &&& post.free@ == pre.free@
    }
}

/// What [`Entities::spawn`] does when it returns `true`: `id` is alive
/// afterwards, its slot's generation forced to `id`'s; slots the table had
/// to grow by read as empty at generation zero; every other existing slot
/// is untouched. When it returns `false`, the slot had already moved past
/// `id`'s generation and nothing changed.
pub open spec fn spawn_effect(pre: Entities, post: Entities, id: EntityId, r: bool) -> bool {
    if r {
        &&& post.is_alive_spec(id)
        &&& id.index_spec() >= pre.generations@.len() || pre.generations@[id.index_spec() as int]
            <= id.gen_spec()
        &&& post.generations@.len() >= pre.generations@.len()
        &&& forall|q: EntityId|
            q.index_spec() != id.index_spec() ==> #[trigger] post.is_alive_spec(q)
                == pre.is_alive_spec(q)
        &&& forall|q: EntityId|
            q.index_spec() == id.index_spec() && q != id ==> !post.is_alive_spec(q)
    } else {
        &&& id.index_spec() < pre.generations@.len()
        &&& pre.generations@[id.index_spec() as int] > id.gen_spec()
        &&& post.generations@ == pre.generations@
        &&& post.alive@ == pre.alive@
    }
}

/// A dead identifier whose slot generation has caught up with it: the state
/// `id` is left in by a successful delete. Nothing but `spawn` can ever
/// make such an identifier alive again.
pub open spec fn retired_spec(s: Entities, id: EntityId) -> bool {
    &&& id.index_spec() < s.generations@.len()
    &&& !s.is_alive_spec(id)
    &&& (s.generations@[id.index_spec() as int] > id.gen_spec() || (s.generations@[id.index_spec()
        as int] == id.gen_spec() && id.gen_spec() == u32::MAX))
}

/// A successful delete retires the identifier.
pub proof fn lemma_delete_retires(pre: Entities, post: Entities, id: EntityId)
    requires
        pre.wf(),
        post.wf(),
        delete_effect(pre, post, id, true),
    ensures
        retired_spec(post, id),
        !post.is_alive_spec(id),
{
}

/// Generating never revives a retired identifier: the fresh identifier is a
/// different one, and the retired one stays dead.
pub proof fn lemma_generate_keeps_retired(pre: Entities, post: Entities, r: EntityId, id: EntityId)
    requires
        pre.wf(),
        post.wf(),
        generate_effect(pre, post, r),
        retired_spec(pre, id),
    ensures
        retired_spec(post, id),
        r != id,
        !post.is_alive_spec(id),
{
    if r == id {
        assert(post.generations@[id.index_spec() as int] == id.gen_spec());
        assert(pre.generations@[id.index_spec() as int] == id.gen_spec());
        assert(!pre.is_alive_spec(id));
    }
}

/// Deleting one identifier leaves every retired identifier retired.
pub proof fn lemma_delete_keeps_retired(
    pre: Entities,
    post: Entities,
    deleted: EntityId,
    r: bool,
    id: EntityId,
)
    requires
        pre.wf(),
        post.wf(),
        delete_effect(pre, post, deleted, r),
        retired_spec(pre, id),
    ensures
        retired_spec(post, id),
        !post.is_alive_spec(id),
{
}

/// Reusing a slot after a delete mints a strictly newer generation: if
/// deleting `id` succeeded (and its generation was not saturated), any
/// identifier generated at the same slot afterwards carries a greater
/// generation.
pub proof fn lemma_reuse_bumps_generation(
    s0: Entities,
    s1: Entities,
    s2: Entities,
    id: EntityId,
    r: EntityId,
)
    requires
        s0.wf(),
        s1.wf(),
        s2.wf(),
        id.gen_spec() < u32::MAX,
        delete_effect(s0, s1, id, true),
        generate_effect(s1, s2, r),
        r.index_spec() == id.index_spec(),
    ensures
        r.gen_spec() > id.gen_spec(),
        r != id,
{
}

/// The freed slot itself is reused: deleting `id` pushes its slot onto the
/// free list, and the very next generate pops it again — the fresh
/// identifier carries `id`'s slot index at the bumped generation. (When
/// `id`'s generation is one below saturation the bumped slot is retired
/// instead, so the only excluded inputs are the two largest generations.)
pub proof fn lemma_delete_then_generate_reuses_slot(
    s0: Entities,
    s1: Entities,
    s2: Entities,
    id: EntityId,
    r: EntityId,
)
    requires
        s0.wf(),
        s1.wf(),
        s2.wf(),
        id.gen_spec() + 1 < u32::MAX,
        delete_effect(s0, s1, id, true),
        generate_effect(s1, s2, r),
    ensures
        r.index_spec() == id.index_spec(),
        r.gen_spec() == id.gen_spec() + 1,
        !s2.is_alive_spec(id),
{
    assert(s1.free@ == s0.free@.push(id.index_spec()));
    assert(s1.free@.last() == id.index_spec());
    assert(usable_slot(s1, id.index_spec()));
    assert(next_reusable(s1, s1.free@) == Option::Some(id.index_spec()));
    assert(s1.generations@[id.index_spec() as int] == id.gen_spec() + 1);
    assert(r != id);
}

impl Entities {
    /// Mints a fresh entity: pops a free slot, or extends the table. The
    /// returned identifier is alive, was not alive before, and no other
    /// identifier's liveness changes.
    #[verifier::loop_isolation(false)]
    pub fn generate(&mut self) -> (r: EntityId)
        requires
            old(self).wf(),
            old(self).generations@.len() < usize::MAX,
        ensures
            final(self).wf(),
            generate_effect(*old(self), *final(self), r),
    {
        loop
            invariant
                self.wf(),
                self.generations@ == old(self).generations@,
                self.alive@ == old(self).alive@,
                self.free@.len() <= old(self).free@.len(),
                self.free@ == old(self).free@.take(self.free@.len() as int),
                next_reusable(*old(self), old(self).free@) == next_reusable(
                    *old(self),
                    self.free@,
                ),
            decreases self.free@.len(),
        {
            let ghost pre_free = self.free@;
            let f = match self.free.pop() {
                Some(f) => f,
                None => {
                    break ;
                },
            };
            proof {
                assert(pre_free.len() <= old(self).free@.len());
                assert forall|j: int| 0 <= j < self.free@.len() implies self.free@[j] == old(
                    self,
                ).free@[j] by {
                    assert(self.free@[j] == pre_free[j]);
                    assert(pre_free[j] == old(self).free@.take(pre_free.len() as int)[j]);
                }
                assert(self.free@ =~= old(self).free@.take(self.free@.len() as int));
                assert(pre_free.drop_last() =~= self.free@);
            }
            let idx = f as usize;
            if !self.alive[idx] && self.generations[idx] < u32::MAX {
                self.alive[idx] = true;
                let r = EntityId::new_from_parts(f, self.generations[idx]);
                proof {
                    assert(usable_slot(*old(self), f));
                    assert(next_reusable(*old(self), pre_free) == Option::Some(f));
                    assert forall|q: EntityId| q != r implies #[trigger] self.is_alive_spec(q)
                        == old(self).is_alive_spec(q) by {}
                }
                return r;
            }
            proof {
                assert(!usable_slot(*old(self), pre_free.last()));
                assert(next_reusable(*old(self), pre_free) == next_reusable(
                    *old(self),
                    self.free@,
                ));
            }
        }
        proof {
            assert(next_reusable(*old(self), old(self).free@) is None);
        }
        let index = self.generations.len();
        self.generations.push(0);
        self.alive.push(true);
        let r = EntityId::new_from_parts(index as u64, 0);
        proof {
            assert forall|q: EntityId| q != r implies #[trigger] self.is_alive_spec(q) == old(
                self,
            ).is_alive_spec(q) by {}
        }
        r
    }

    /// Kills `id` if it is alive: frees its slot and bumps the slot's
    /// generation, saturating at the largest value (such a slot is retired
    /// for good rather than recycled). Returns whether `id` was alive.
    pub fn delete(&mut self, id: EntityId) -> (r: bool)
        requires
            old(self).wf(),
        ensures
            final(self).wf(),
            delete_effect(*old(self), *final(self), id, r),
            r == old(self).is_alive_spec(id),
            !final(self).is_alive_spec(id),
    {
        if !self.is_alive(id) {
            return false;
        }
        let count = self.generations.len();
        proof {
            assert(id.index_spec() < count);
        }
        let idx = id.uindex();
        self.alive[idx] = false;
        if id.gen() < u32::MAX {
            self.generations[idx] = id.gen() + 1;
            self.free.push(id.index());
        }
        true
    }

    /// Forces `id` alive, provided its slot has not moved past `id`'s
    /// generation; extends the table when the slot does not exist yet.
    /// Returns whether the entity was spawned.
    pub fn spawn(&mut self, id: EntityId) -> (r: bool)
        requires
            old(self).wf(),
            id.index_spec() < usize::MAX,
        ensures
            final(self).wf(),
            spawn_effect(*old(self), *final(self), id, r),
    {
        let count = self.generations.len();
        if id.index() < count as u64 {
            let idx = id.uindex();
            if self.generations[idx] <= id.gen() {
                self.generations[idx] = id.gen();
                self.alive[idx] = true;
                proof {
                    assert forall|q: EntityId|
                        q.index_spec() != id.index_spec() implies #[trigger] self.is_alive_spec(q)
                        == old(self).is_alive_spec(q) by {}
                }
                true
            } else {
                false
            }
        } else {
            let target = id.uindex();
            while self.generations.len() <= target
                invariant
                    self.wf(),
                    target < usize::MAX,
                    self.generations@.len() >= old(self).generations@.len(),
                    forall|x: int|
                        0 <= x < old(self).generations@.len()
                            ==> #[trigger] self.generations@[x] == old(self).generations@[x],
                    forall|x: int|
                        0 <= x < old(self).generations@.len() ==> #[trigger] self.alive@[x] == old(
                            self,
                        ).alive@[x],
                    forall|x: int|
                        old(self).generations@.len() <= x < self.generations@.len()
                            ==> !(#[trigger] self.alive@[x]),
                decreases target + 1 - self.generations.len(),
            {
                let fresh_index = self.generations.len();
                self.generations.push(0);
                self.alive.push(false);
                self.free.push(fresh_index as u64);
            }
            self.generations[target] = id.gen();
            self.alive[target] = true;
            proof {
                assert forall|q: EntityId|
                    q.index_spec() != id.index_spec() implies #[trigger] self.is_alive_spec(q)
                    == old(self).is_alive_spec(q) by {}
            }
            true
        }
    }

    /// Mints `count` fresh entities and returns them in order: all alive,
    /// pairwise distinct, and no other identifier's liveness changes.
    #[verifier::loop_isolation(false)]
    pub fn bulk_generate(&mut self, count: usize) -> (r: Vec<EntityId>)
        requires
            old(self).wf(),
            old(self).generations@.len() + count <= usize::MAX,
        ensures
            final(self).wf(),
            r@.len() == count,
            forall|a: int| 0 <= a < count ==> final(self).is_alive_spec(#[trigger] r@[a]),
            forall|a: int, b: int| 0 <= a < b < count ==> r@[a] != r@[b],
            forall|q: EntityId|
                !r@.contains(q) ==> #[trigger] final(self).is_alive_spec(q) == old(
                    self,
                ).is_alive_spec(q),
    {
        let mut out: Vec<EntityId> = Vec::new();
        let mut made: usize = 0;
        while made < count
            invariant
                made <= count,
                out@.len() == made,
                self.wf(),
                self.generations@.len() + (count - made) <= usize::MAX,
                forall|a: int| 0 <= a < made ==> self.is_alive_spec(#[trigger] out@[a]),
                forall|a: int, b: int| 0 <= a < b < made ==> out@[a] != out@[b],
                forall|q: EntityId|
                    !out@.contains(q) ==> #[trigger] self.is_alive_spec(q) == old(
                        self,
                    ).is_alive_spec(q),
            decreases count - made,
        {
            let ghost prev = *self;
            let ghost prev_out = out@;
            let id = self.generate();
            out.push(id);
            made = made + 1;
            proof {
                assert forall|a: int| 0 <= a < made implies self.is_alive_spec(
                    #[trigger] out@[a],
                ) by {
                    if a < made - 1 {
                        assert(prev.is_alive_spec(prev_out[a]));
                        if prev_out[a] != id {
                        }
                    }
                }
                assert forall|a: int, b: int| 0 <= a < b < made implies out@[a] != out@[b] by {
                    if b == made - 1 {
                        assert(prev.is_alive_spec(prev_out[a]));
                        assert(!prev.is_alive_spec(id));
                    }
                }
                assert forall|q: EntityId| !out@.contains(q) implies #[trigger] self.is_alive_spec(
                    q,
                ) == old(self).is_alive_spec(q) by {
                    assert(q != id) by {
                        assert(out@[made - 1] == id);
                    }
                    assert(!prev_out.contains(q)) by {
                        if prev_out.contains(q) {
                            let a = choose|a: int|
                                0 <= a < prev_out.len() && prev_out[a] == q;
                            assert(out@[a] == q);
                        }
                    }
                }
            }
        }
        out
    }
}

} // verus!
