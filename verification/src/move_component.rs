//! Moving one component between the storages of two worlds.

use crate::component::Component;
use crate::entity_id::EntityId;
use crate::sparse_set::{
    insert_accepts, insert_effect, lemma_insert_inserts, remove_core_effect, SparseSet,
};
use vstd::prelude::*;

verus! {

/// Moves `source_entity`'s component, if it has one, out of `source` and
/// into `dest` under `dest_entity`. The removal and the insertion are
/// tracked in the respective storages as usual, stamped with `current`.
/// When the destination slot accepts `dest_entity`, the moved component is
/// stored under it; a stale `dest_entity` (a newer generation already holds
/// the slot) refuses the insertion and the component is dropped.
pub fn move_component<T: Component>(
    source_entity: EntityId,
    source: &mut SparseSet<T>,
    dest_entity: EntityId,
    dest: &mut SparseSet<T>,
    current: u32,
)
    requires
        old(source).wf(),
        old(dest).wf(),
        dest_entity.index_spec() <= usize::MAX,
        !dest_entity.is_dead_spec(),
        old(dest).dense@.len() < usize::MAX,
    ensures
        final(source).wf(),
        final(dest).wf(),
        remove_core_effect(*old(source), *final(source), source_entity),
        old(source).get_spec(source_entity) is Some ==> exists|r: Option<T>|
            insert_effect(
                *old(dest),
                *final(dest),
                dest_entity,
                old(source).get_spec(source_entity)->0,
                current,
                r,
            ),
        old(source).get_spec(source_entity) is Some && insert_accepts(*old(dest), dest_entity)
            ==> final(dest).get_spec(dest_entity) == Option::Some(
            old(source).get_spec(source_entity)->0,
        ),
        old(source).get_spec(source_entity) is None ==> *final(dest) == *old(dest),
{
    match source.dyn_remove(source_entity, current) {
        Some(component) => {
            let replaced = dest.insert(dest_entity, component, current);
            proof {
                if insert_accepts(*old(dest), dest_entity) {
                    lemma_insert_inserts(
                        *old(dest),
                        *dest,
                        dest_entity,
                        component,
                        current,
                        replaced,
                    );
                }
            }
        },
        None => {
        },
    }
}

} // verus!
