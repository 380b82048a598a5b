use vstd::prelude::*;
use std::collections::HashMap;
use std::marker::PhantomData;
use crate::error::Error;
use crate::slot::Slot;

verus! {

/// Identifies one registered component type.
#[derive(Clone, Copy, Debug, PartialEq, Eq, Hash, Structural)]
pub struct TypeKey(pub u64);

/// One completed step of a resolution: the construction of a component, or
/// the run of its ready-hook.
pub enum Step {
    Constructed(TypeKey),
    Initialized(TypeKey),
}

/// A handle onto the slot of one registered component.
///
/// A handle can be taken and stored before its slot is filled; reading
/// through it fails with `NotReady` until then.
pub struct Dep<T> {
    key: TypeKey,
    slot: usize,
    marker: PhantomData<T>,
}

impl<T> Clone for Dep<T> {
    fn clone(&self) -> (copy: Self)
        ensures
            copy == *self,
    {
        Dep { key: self.key, slot: self.slot, marker: PhantomData }
    }
}

impl<T> Copy for Dep<T> {

}

/// The mathematical content of a [`Registry`].
pub struct RegistryView<T> {
    /// Every slot ever allocated, by position.
    pub slots: Seq<Option<T>>,
    /// The slot that each registered key currently names.
    pub index: Map<TypeKey, usize>,
    /// Every construction and initialization completed so far, oldest first.
    pub trace: Seq<Step>,
}

impl<T> RegistryView<T> {
    /// Every registered key names an allocated slot, and no two keys share
    /// one.
    pub open spec fn wf(self) -> bool {
        &&& forall|k: TypeKey| #[trigger]
            self.index.contains_key(k) ==> (self.index[k] as int) < self.slots.len()
        &&& forall|j: TypeKey, k: TypeKey|
            self.index.contains_key(j) && self.index.contains_key(k) && j != k
                ==> self.index[j] != self.index[k]
    }

    /// Whether a factory was registered under `key`.
    pub open spec fn knows(self, key: TypeKey) -> bool {
        self.index.contains_key(key)
    }

    /// Whether `slot` is allocated and holds a value.
    pub open spec fn filled(self, slot: int) -> bool {
        0 <= slot < self.slots.len() && self.slots[slot] is Some
    }

    /// Whether `slot` is allocated and still empty.
    pub open spec fn vacant(self, slot: int) -> bool {
        0 <= slot < self.slots.len() && self.slots[slot] is None
    }

    /// Whether the slot of every registered key is filled.
    pub open spec fn complete(self) -> bool {
        forall|k: TypeKey| #[trigger] self.knows(k) ==> self.filled(self.index[k] as int)
    }

    /// The registry with nothing registered.
    pub open spec fn empty() -> Self {
        RegistryView { slots: Seq::empty(), index: Map::empty(), trace: Seq::empty() }
    }

    /// Binding `key` to a fresh empty slot.
    pub open spec fn bind(self, key: TypeKey) -> Self {
        RegistryView {
            slots: self.slots.push(None),
            index: self.index.insert(key, self.slots.len() as usize),
            trace: self.trace,
        }
    }

    /// Filling `slot` with the value built for `key`.
    pub open spec fn construct(self, key: TypeKey, slot: int, value: T) -> Self {
        RegistryView {
            slots: self.slots.update(slot, Some(value)),
            index: self.index,
            trace: self.trace.push(Step::Constructed(key)),
        }
    }

    /// Recording that the ready-hook of `key` has run.
    pub open spec fn initialize(self, key: TypeKey) -> Self {
        RegistryView {
            slots: self.slots,
            index: self.index,
            trace: self.trace.push(Step::Initialized(key)),
        }
    }
}

impl<T> Dep<T> {
    pub closed spec fn spec_key(&self) -> TypeKey {
        self.key
    }

    pub closed spec fn spec_slot(&self) -> usize {
        self.slot
    }

    /// The key this handle was issued for.
    #[verifier::when_used_as_spec(spec_key)]
    pub fn key(&self) -> (key: TypeKey)
        ensures
            key == self.key(),
    {
        self.key
    }

    /// The position of the slot this handle points at.
    #[verifier::when_used_as_spec(spec_slot)]
    pub fn slot(&self) -> (slot: usize)
        ensures
            slot == self.slot(),
    {
        self.slot
    }

    /// What reading this handle against a registry with the given content
    /// returns: `UnknownType` where the registry has no such slot,
    /// `NotReady` while the slot is empty, the stored value after that.
    pub open spec fn read_of(&self, registry: RegistryView<T>) -> Result<T, Error> {
        if self.slot() >= registry.slots.len() {
            Err(Error::UnknownType)
        } else {
            match registry.slots[self.slot() as int] {
                Some(value) => Ok(value),
                None => Err(Error::NotReady),
            }
        }
    }

    /// Reads the component behind the handle.
    pub fn read<'a>(&self, registry: &'a Registry<T>) -> (got: Result<&'a T, Error>)
        ensures
            got matches Ok(value) ==> self.read_of(registry@) == Ok::<T, Error>(*value),
            got matches Err(e) ==> self.read_of(registry@) == Err::<T, Error>(e),
    {
        if self.slot >= registry.slots.len() {
            Err(Error::UnknownType)
        } else {
            registry.slots[self.slot].read()
        }
    }
}

/// The slot table of a container: one write-once slot per registration,
/// found by key.
pub struct Registry<T> {
    slots: Vec<Slot<T>>,
    index: HashMap<u64, usize>,
    trace: Ghost<Seq<Step>>,
}

impl<T> View for Registry<T> {
    type V = RegistryView<T>;

    closed spec fn view(&self) -> RegistryView<T> {
        RegistryView {
            slots: Seq::new(self.slots@.len(), |i: int| self.slots@[i]@),
            index: Map::new(
                |k: TypeKey| self.index@.contains_key(k.0),
                |k: TypeKey| self.index@[k.0],
            ),
            trace: self.trace@,
        }
    }
}

impl<T> Registry<T> {
    /// The invariant of a registry: that of its content.
    pub open spec fn wf(&self) -> bool {
        self@.wf()
    }

    /// A registry with nothing registered.
    pub fn new() -> (registry: Self)
        ensures
            registry.wf(),
            registry@ == RegistryView::<T>::empty(),
    {
        let registry = Registry { slots: Vec::new(), index: HashMap::new(), trace: Ghost(Seq::empty()) };
        assert(registry@.slots =~= Seq::empty());
        assert(registry@.index =~= Map::empty());
        registry
    }

    /// Allocates a fresh empty slot and makes `key` name it. A slot that
    /// `key` named before stays allocated and is no longer reachable by key.
    pub fn bind(&mut self, key: TypeKey) -> (dep: Dep<T>)
        requires
            old(self).wf(),
        ensures
            final(self).wf(),
            final(self)@ == old(self)@.bind(key),
            dep.key() == key,
            dep.slot() == old(self)@.slots.len(),
    {
        let slot = self.slots.len();
        self.slots.push(Slot::new());
        self.index.insert(key.0, slot);
        assert(self@.slots =~= old(self)@.bind(key).slots);
        assert(self@.index =~= old(self)@.bind(key).index);
        Dep { key, slot, marker: PhantomData }
    }

    /// A handle onto the slot that `key` names, whether filled or not.
    pub fn get(&self, key: TypeKey) -> (got: Result<Dep<T>, Error>)
        ensures
            self@.knows(key) ==> (got matches Ok(dep) && dep.key() == key && dep.slot()
                == self@.index[key]),
            !self@.knows(key) ==> got == Err::<Dep<T>, Error>(Error::UnknownType),
    {
        match self.index.get(&key.0) {
            Some(slot) => Ok(Dep { key, slot: *slot, marker: PhantomData }),
            None => Err(Error::UnknownType),
        }
    }

    /// What `construct` returns for a handle, the registry it meets and the
    /// outcome of the factory: a failed factory is `FactoryFailed`, a handle
    /// without a slot here `UnknownType`, a slot already filled
    /// `AlreadyFilled`.
    pub open spec fn construct_result(
        registry: RegistryView<T>,
        dep: Dep<T>,
        built: Result<T, Error>,
    ) -> Result<(), Error> {
        if built is Err {
            Err(Error::FactoryFailed)
        } else if dep.slot() >= registry.slots.len() {
            Err(Error::UnknownType)
        } else if registry.slots[dep.slot() as int] is Some {
            Err(Error::AlreadyFilled)
        } else {
            Ok(())
        }
    }

    /// Takes what the factory behind `dep` returned and, where it built a
    /// value, stores that value in the slot. On any failure the registry
    /// stays as it was.
    pub fn construct(&mut self, dep: &Dep<T>, built: Result<T, Error>) -> (done: Result<(), Error>)
        requires
            old(self).wf(),
        ensures
            final(self).wf(),
            done == Self::construct_result(old(self)@, *dep, built),
            done is Err ==> final(self)@ == old(self)@,
            done is Ok ==> built is Ok && final(self)@ == old(self)@.construct(
                dep.key(),
                dep.slot() as int,
                built->Ok_0,
            ),
    {
        match built {
            Err(_) => Err(Error::FactoryFailed),
            Ok(value) => {
                if dep.slot >= self.slots.len() {
                    Err(Error::UnknownType)
                } else {
                    let done = self.slots[dep.slot].fill(value);
                    proof {
                        if done is Ok {
                            self.trace@ = self.trace@.push(Step::Constructed(dep.key));
                            assert(self@.slots =~= old(self)@.slots.update(
                                dep.slot as int,
                                Some(value),
                            ));
                        } else {
                            assert(self@.slots =~= old(self)@.slots);
                        }
                        assert(self@.index =~= old(self)@.index);
                    }
                    done
                }
            },
        }
    }

    /// What `initialize` returns for a handle, the registry it meets and the
    /// outcome of the ready-hook.
    pub open spec fn initialize_result(
        registry: RegistryView<T>,
        dep: Dep<T>,
        outcome: Result<(), Error>,
    ) -> Result<(), Error> {
        if outcome is Err {
            Err(Error::FactoryFailed)
        } else if dep.slot() >= registry.slots.len() {
            Err(Error::UnknownType)
        } else if registry.slots[dep.slot() as int] is None {
            Err(Error::NotReady)
        } else {
            Ok(())
        }
    }

    /// Takes what the ready-hook of the component behind `dep` returned and
    /// records the step where the hook succeeded. The slots never change.
    pub fn initialize(&mut self, dep: &Dep<T>, outcome: Result<(), Error>) -> (done: Result<
        (),
        Error,
    >)
        requires
            old(self).wf(),
        ensures
            final(self).wf(),
            done == Self::initialize_result(old(self)@, *dep, outcome),
            done is Err ==> final(self)@ == old(self)@,
            done is Ok ==> final(self)@ == old(self)@.initialize(dep.key()),
    {
        match outcome {
            Err(_) => Err(Error::FactoryFailed),
            Ok(()) => {
                if dep.slot >= self.slots.len() {
                    Err(Error::UnknownType)
                } else if !self.slots[dep.slot].is_filled() {
                    Err(Error::NotReady)
                } else {
                    proof {
                        self.trace@ = self.trace@.push(Step::Initialized(dep.key));
                        assert(self@.index =~= old(self)@.index);
                    }
                    Ok(())
                }
            },
        }
    }
}

} // verus!
