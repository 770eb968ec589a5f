//! Storing a fresh entity's components: one trait over single storages and
//! tuples of storages, so that an entity's whole component bundle is added
//! with one call.

use crate::component::Component;
use crate::entity_id::EntityId;
use crate::sparse_set::{insert_accepts, insert_effect, SparseSet};
use vstd::prelude::*;

verus! {

/// A target that a fresh entity's components can be added to: one storage,
/// or a tuple of storages taking a tuple of components.
pub trait AddEntity: Sized {
    /// The component bundle this target takes.
    type Component;

    /// Whether the target is ready to take a bundle for `entity`.
    spec fn can_add(&self, entity: EntityId) -> bool;

    /// What adding a bundle does: how `post` relates to `pre` after
    /// storing `component` under `entity` at tick `current`. Each target
    /// defines it; for a storage it is the storage's own insertion effect,
    /// for a tuple it holds member-wise.
    spec fn stored(pre: Self, post: Self, entity: EntityId, component: Self::Component, current: u32) -> bool;

    /// Adds `entity`'s bundle, stamping it with the tick `current`.
    fn add_entity(&mut self, entity: EntityId, component: Self::Component, current: u32)
        requires
            old(self).can_add(entity),
        ensures
            Self::stored(*old(self), *final(self), entity, component, current),
    ;
}

impl AddEntity for () {
    type Component = ();

    open spec fn can_add(&self, entity: EntityId) -> bool {
        true
    }

    open spec fn stored(pre: (), post: (), entity: EntityId, component: (), current: u32) -> bool {
        true
    }

    fn add_entity(&mut self, entity: EntityId, component: (), current: u32) {
    }
}

impl<T: Component> AddEntity for SparseSet<T> {
    type Component = T;

    open spec fn can_add(&self, entity: EntityId) -> bool {
        &&& self.wf()
        &&& entity.index_spec() <= usize::MAX
        &&& !entity.is_dead_spec()
        &&& self.dense@.len() < usize::MAX
    }

    /// The bundle member is inserted as `entity`'s component: the storage's
    /// insertion effect holds for some returned prior component, and when
    /// the slot accepts `entity`, the component is stored under it.
    open spec fn stored(
        pre: SparseSet<T>,
        post: SparseSet<T>,
        entity: EntityId,
        component: T,
        current: u32,
    ) -> bool {
        &&& post.wf()
        &&& exists|r: Option<T>| insert_effect(pre, post, entity, component, current, r)
        &&& insert_accepts(pre, entity) ==> post.get_spec(entity) == Option::Some(component)
    }

    fn add_entity(&mut self, entity: EntityId, component: T, current: u32) {
        let replaced = self.insert(entity, component, current);
        proof {
            crate::sparse_set::lemma_lookups_agree(self, entity);
            if insert_accepts(*old(self), entity) {
                crate::sparse_set::lemma_insert_inserts(
                    *old(self),
                    *self,
                    entity,
                    component,
                    current,
                    replaced,
                );
            }
        }
    }
}

impl<A: AddEntity, B: AddEntity> AddEntity for (A, B) {
    type Component = (A::Component, B::Component);

    open spec fn can_add(&self, entity: EntityId) -> bool {
        self.0.can_add(entity) && self.1.can_add(entity)
    }

    open spec fn stored(
        pre: (A, B),
        post: (A, B),
        entity: EntityId,
        component: (A::Component, B::Component),
        current: u32,
    ) -> bool {
        &&& A::stored(pre.0, post.0, entity, component.0, current)
        &&& B::stored(pre.1, post.1, entity, component.1, current)
    }

    fn add_entity(&mut self, entity: EntityId, component: (A::Component, B::Component), current: u32) {
        let (first, second) = component;
        self.0.add_entity(entity, first, current);
        self.1.add_entity(entity, second, current);
    }
}

impl<A: AddEntity, B: AddEntity, C: AddEntity> AddEntity for (A, B, C) {
    type Component = (A::Component, B::Component, C::Component);

    open spec fn can_add(&self, entity: EntityId) -> bool {
        self.0.can_add(entity) && self.1.can_add(entity) && self.2.can_add(entity)
    }

    open spec fn stored(
        pre: (A, B, C),
        post: (A, B, C),
        entity: EntityId,
        component: (A::Component, B::Component, C::Component),
        current: u32,
    ) -> bool {
        &&& A::stored(pre.0, post.0, entity, component.0, current)
        &&& B::stored(pre.1, post.1, entity, component.1, current)
        &&& C::stored(pre.2, post.2, entity, component.2, current)
    }

    fn add_entity(
        &mut self,
        entity: EntityId,
        component: (A::Component, B::Component, C::Component),
        current: u32,
    ) {
        let (first, second, third) = component;
        self.0.add_entity(entity, first, current);
        self.1.add_entity(entity, second, current);
        self.2.add_entity(entity, third, current);
    }
}

} // verus!
