//! A place for a value that is set once.
use vstd::prelude::*;

verus! {

/// A place for a value that is set once and stays.
#[derive(Debug)]
pub struct OnceSlot<T> {
    value: Option<T>,
}

impl<T> View for OnceSlot<T> {
    type V = Option<T>;

    closed spec fn view(&self) -> Option<T> {
        self.value
    }
}

/// The slot once somebody tried to set it: only the first value gets in.
pub open spec fn after_set<T>(slot: Option<T>, value: T) -> Option<T> {
    match slot {
        Some(v) => Some(v),
        None => Some(value),
    }
}

/// What trying to set a slot returns: the value, if there was one already.
pub open spec fn set_result<T>(slot: Option<T>, value: T) -> Result<(), T> {
    match slot {
        Some(_) => Err(value),
        None => Ok(()),
    }
}

impl<T> OnceSlot<T> {
    /// An empty slot.
    pub fn new() -> (r: Self)
        ensures
            r@ is None,
    {
        OnceSlot { value: None }
    }

    /// Sets the value, or hands it back if there is one already.
    pub fn set(&mut self, value: T) -> (r: Result<(), T>)
        ensures
            r == set_result(old(self)@, value),
            final(self)@ == after_set(old(self)@, value),
    {
        if self.value.is_some() {
            Err(value)
        } else {
            self.value = Some(value);
            Ok(())
        }
    }

    /// The value, if it was set.
    pub fn get(&self) -> (r: Option<&T>)
        ensures
            match r {
                Some(v) => self@ == Some(*v),
                None => self@ is None,
            },
    {
        self.value.as_ref()
    }

    /// The value, if it was set, to be changed in place.
    pub fn get_mut(&mut self) -> (r: Option<&mut T>)
        ensures
            match r {
                Some(v) => old(self)@ == Some(*v) && final(self)@ == Some(*final(v)),
                None => old(self)@ is None && final(self)@ is None,
            },
    {
        self.value.as_mut()
    }
}

/// A slot that was set keeps its first value, however often it is set again.
pub proof fn law_first_value_stays<T>(slot: Option<T>, first: T, second: T)
    ensures
        after_set(after_set(slot, first), second) == after_set(slot, first),
        set_result(after_set(slot, first), second) == Err::<(), T>(second),
{
}

/// The first value gets in and is answered for, every later one is handed back and leaves the slot as
/// it is.
pub proof fn law_only_the_first_gets_in<T>(there: T, value: T)
    ensures
        after_set(None, value) == Some(value),
        set_result(None::<T>, value) == Ok::<(), T>(()),
        after_set(Some(there), value) == Some(there),
        set_result(Some(there), value) == Err::<(), T>(value),
{
}

} // verus!
