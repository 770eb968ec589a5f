//! Storage for a unique value: exactly one `T`, not keyed by any entity.

use vstd::prelude::*;

verus! {

/// A storage holding exactly one `T`, plus the tick at which it was added.
/// It is subject to the same borrow discipline as any other storage.
pub struct UniqueStorage<T> {
    /// The stored value.
    pub value: T,
    /// The tick at which the value was added.
    pub insert: u32,
}

impl<T> UniqueStorage<T> {
    /// Wraps `value`, stamped with the tick `current`.
    pub fn new(value: T, current: u32) -> (r: UniqueStorage<T>)
        ensures
            r.value == value,
            r.insert == current,
    {
        UniqueStorage { value, insert: current }
    }

    /// Returns a reference to the stored value.
    pub fn get(&self) -> (r: &T)
        ensures
            *r == self.value,
    {
        &self.value
    }

    /// Returns an exclusive reference to the stored value.
    pub fn get_mut(&mut self) -> (r: &mut T)
        ensures
            *r == old(self).value,
            final(self).value == *final(r),
            final(self).insert == old(self).insert,
    {
        &mut self.value
    }

    /// Unwraps the storage, handing the value back.
    pub fn into_value(self) -> (r: T)
        ensures
            r == self.value,
    {
        self.value
    }
}

} // verus!
