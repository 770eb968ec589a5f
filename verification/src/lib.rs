//! Core of an entity-component-system runtime.
//!
//! Entities are generational identifiers ([`entity_id::EntityId`]) minted
//! and recycled by the allocator in [`entities`]; components live in
//! per-type sparse-set storages ([`sparse_set`]) with optional change
//! tracking against the wraparound-safe clock of [`tracking`]; access to a
//! storage is arbitrated by the shared-xor-exclusive cell of
//! [`borrow_cell`], one per storage in the [`registry`], which also
//! acquires whole borrow sets in order and rolls them back on conflict;
//! and [`scheduler`] packs the systems of a workload into parallel batches
//! whose members never contend for a storage.

pub mod add_entity;
pub mod borrow_cell;
pub mod component;
pub mod entities;
pub mod entity_id;
pub mod error;
pub mod move_component;
pub mod registry;
pub mod scheduler;
pub mod sparse_array;
pub mod sparse_set;
pub mod tracking;
pub mod unique_storage;

pub use entity_id::EntityId;
