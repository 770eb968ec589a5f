//! Generational entity identifiers.
//!
//! An [`EntityId`] stands for one 64-bit packed identifier: a slot index in
//! the low half and a generation in the high half. The generation is bumped
//! each time a slot is recycled, so a stale identifier (one whose generation
//! is older than the slot's current generation) can be told apart from the
//! identifier currently occupying the same slot. Equality compares the whole
//! identifier, index and generation together.

use vstd::prelude::*;

verus! {

/// A generational entity identifier: a slot index paired with the generation
/// the slot had when this identifier was minted.
///
/// The distinguished [`EntityId::dead`] value is a sentinel that no live
/// entity ever carries; sparse-array slots holding it read as "absent".
#[derive(Clone, Copy, PartialEq, Eq, Structural, Hash, Debug)]
pub struct EntityId {
    pub index: u64,
    pub generation: u32,
}

impl EntityId {
    /// The slot index part of the identifier.
    pub open spec fn index_spec(self) -> u64 {
        self.index
    }

    /// The generation part of the identifier.
    pub open spec fn gen_spec(self) -> u32 {
        self.generation
    }

    /// The sentinel value reserved for "no entity".
    pub open spec fn dead_spec() -> EntityId {
        EntityId { index: u64::MAX, generation: u32::MAX }
    }

    /// Whether this identifier is the sentinel.
    pub open spec fn is_dead_spec(self) -> bool {
        self == EntityId::dead_spec()
    }

    /// Returns the identifier for slot `index` at generation 0.
    pub fn new(index: u64) -> (r: EntityId)
        ensures
            r.index_spec() == index,
            r.gen_spec() == 0,
    {
        EntityId { index, generation: 0 }
    }

    /// Returns the identifier for slot 0 at generation 0.
    pub fn zero() -> (r: EntityId)
        ensures
            r.index_spec() == 0,
            r.gen_spec() == 0,
    {
        EntityId { index: 0, generation: 0 }
    }

    /// Builds an identifier from its index and generation parts.
    pub fn new_from_parts(index: u64, generation: u32) -> (r: EntityId)
        ensures
            r.index_spec() == index,
            r.gen_spec() == generation,
    {
        EntityId { index, generation }
    }

    /// The sentinel value reserved for "no entity".
    pub fn dead() -> (r: EntityId)
        ensures
            r == EntityId::dead_spec(),
    {
        EntityId { index: u64::MAX, generation: u32::MAX }
    }

    /// Whether this identifier is the sentinel.
    #[verifier::when_used_as_spec(is_dead_spec)]
    pub fn is_dead(self) -> (r: bool)
        ensures
            r == self.is_dead_spec(),
    {
        self.index == u64::MAX && self.generation == u32::MAX
    }

    /// The slot index part of the identifier.
    #[verifier::when_used_as_spec(index_spec)]
    pub fn index(self) -> (r: u64)
        ensures
            r == self.index_spec(),
    {
        self.index
    }

    /// The slot index part, as a `usize`.
    pub fn uindex(self) -> (r: usize)
        requires
            self.index_spec() <= usize::MAX,
        ensures
            r == self.index_spec(),
    {
        self.index as usize
    }

    /// The generation part of the identifier.
    #[verifier::when_used_as_spec(gen_spec)]
    pub fn gen(self) -> (r: u32)
        ensures
            r == self.gen_spec(),
    {
        self.generation
    }

    /// Replaces the index part, keeping the generation.
    pub fn set_index(&mut self, index: u64)
        ensures
            final(self).index_spec() == index,
            final(self).gen_spec() == old(self).gen_spec(),
    {
        self.index = index;
    }

    /// The packed 64-bit form of an identifier whose index fits the low
    /// half: the generation in the high 32 bits, the slot index in the low
    /// 32 bits.
    pub open spec fn bits_spec(self) -> u64 {
        (self.generation * 0x1_0000_0000 + self.index) as u64
    }

    /// Packs the identifier into one 64-bit value: generation high, index
    /// low.
    pub fn to_bits(self) -> (r: u64)
        requires
            self.index_spec() < 0x1_0000_0000,
        ensures
            r == self.bits_spec(),
    {
        (self.generation as u64) * 0x1_0000_0000 + self.index
    }

    /// Unpacks a 64-bit value into the identifier it encodes.
    pub fn from_bits(bits: u64) -> (r: EntityId)
        ensures
            r.index_spec() == bits % 0x1_0000_0000,
            r.gen_spec() == bits / 0x1_0000_0000,
    {
        EntityId { index: bits % 0x1_0000_0000, generation: (bits / 0x1_0000_0000) as u32 }
    }
}

/// Packing and unpacking round-trip: an identifier whose index fits the low
/// half survives the 64-bit form unchanged, and equality of the packed
/// forms is equality of the identifiers.
pub proof fn lemma_bits_round_trip(a: EntityId, b: EntityId)
    requires
        a.index_spec() < 0x1_0000_0000,
        b.index_spec() < 0x1_0000_0000,
    ensures
        a.bits_spec() % 0x1_0000_0000 == a.index_spec(),
        a.bits_spec() / 0x1_0000_0000 == a.gen_spec(),
        (a.bits_spec() == b.bits_spec()) == (a == b),
{
    lemma_split_halves(a.gen_spec() as int, a.index_spec() as int);
    lemma_split_halves(b.gen_spec() as int, b.index_spec() as int);
}

/// Division and remainder by the half-range constant recover the two
/// halves of a packed value.
proof fn lemma_split_halves(high: int, low: int)
    requires
        0 <= high < 0x1_0000_0000,
        0 <= low < 0x1_0000_0000,
    ensures
        (high * 0x1_0000_0000 + low) % 0x1_0000_0000 == low,
        (high * 0x1_0000_0000 + low) / 0x1_0000_0000 == high,
{
    vstd::arithmetic::div_mod::lemma_fundamental_div_mod_converse(
        high * 0x1_0000_0000 + low,
        0x1_0000_0000,
        high,
        low,
    );
}

} // verus!
