//! The marker trait for component payloads.

use vstd::prelude::*;

verus! {

/// Marker for types that can be stored as components, one per entity, in a
/// [`SparseSet`](crate::sparse_set::SparseSet).
pub trait Component {

}

} // verus!
