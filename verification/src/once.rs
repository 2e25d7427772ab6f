//! A slot that is set at most once.

use vstd::prelude::*;

verus! {

/// A slot that is empty until it is set, and holds its value from then
/// on. A process keeps its registries in such slots.
#[derive(Debug)]
pub struct OnceSlot<T> {
    value: Option<T>,
}

impl<T> OnceSlot<T> {
    /// What the slot holds.
    pub closed spec fn held(self) -> Option<T> {
        self.value
    }

    /// An empty slot.
    pub fn new() -> (r: OnceSlot<T>)
        ensures
            r.held() is None,
    {
        OnceSlot { value: None }
    }

    /// Sets an empty slot. A slot that is set already stays as it is and
    /// hands the value back.
    pub fn set(&mut self, value: T) -> (r: Result<(), T>)
        ensures
            match old(self).held() {
                None => r is Ok && final(self).held() == Some(value),
                Some(_) => r == Err::<(), T>(value) && final(self).held() == old(self).held(),
            },
    {
        if self.value.is_some() {
            Err(value)
        } else {
            self.value = Some(value);
            Ok(())
        }
    }

    /// The value, once the slot is set.
    pub fn get(&self) -> (r: Option<&T>)
        ensures
            match self.held() {
                Some(v) => r is Some && *r->0 == v,
                None => r is None,
            },
    {
        self.value.as_ref()
    }

    /// True once the slot is set.
    pub fn is_set(&self) -> (r: bool)
        ensures
            r == self.held() is Some,
    {
        self.value.is_some()
    }
}

} // verus!
