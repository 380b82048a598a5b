use vstd::prelude::*;
use crate::error::Error;

verus! {

/// A write-once cell for one component instance.
///
/// A slot starts empty and is filled at most once; nothing but `fill`
/// changes it.
pub struct Slot<T> {
    value: Option<T>,
}

impl<T> View for Slot<T> {
    type V = Option<T>;

    closed spec fn view(&self) -> Option<T> {
        self.value
    }
}

impl<T> Slot<T> {
    /// An empty slot.
    pub fn new() -> (slot: Self)
        ensures
            slot@ is None,
    {
        Slot { value: None }
    }

    /// Whether the slot holds a value.
    pub fn is_filled(&self) -> (filled: bool)
        ensures
            filled == (self@ is Some),
    {
        self.value.is_some()
    }

    /// Stores `value` in an empty slot. A slot that is already filled keeps
    /// what it holds and reports `AlreadyFilled`.
    pub fn fill(&mut self, value: T) -> (done: Result<(), Error>)
        ensures
            old(self)@ is None ==> done == Ok::<(), Error>(()) && final(self)@ == Some(value),
            old(self)@ is Some ==> done == Err::<(), Error>(Error::AlreadyFilled) && final(self)@
                == old(self)@,
    {
        if self.value.is_some() {
            Err(Error::AlreadyFilled)
        } else {
            self.value = Some(value);
            Ok(())
        }
    }

    /// The stored value, or `NotReady` while the slot is empty.
    pub fn read(&self) -> (got: Result<&T, Error>)
        ensures
            self@ matches Some(value) ==> got == Ok::<&T, Error>(&value),
            self@ is None ==> got == Err::<&T, Error>(Error::NotReady),
    {
        match &self.value {
            Some(value) => Ok(value),
            None => Err(Error::NotReady),
        }
    }
}

} // verus!
