use autowire::{Dep, Error, Registry, Slot, Thunk, TypeKey};

#[test]
fn slot_starts_empty() {
    let slot: Slot<u32> = Slot::new();
    assert!(!slot.is_filled());
    assert_eq!(slot.read(), Err(Error::NotReady));
}

#[test]
fn slot_is_filled_once() {
    let mut slot = Slot::new();
    assert_eq!(slot.fill(7u32), Ok(()));
    assert!(slot.is_filled());
    assert_eq!(slot.read(), Ok(&7));
}

#[test]
fn second_fill_is_rejected() {
    let mut slot = Slot::new();
    assert_eq!(slot.fill(7u32), Ok(()));
    assert_eq!(slot.fill(8u32), Err(Error::AlreadyFilled));
    assert_eq!(slot.read(), Ok(&7));
}

#[test]
fn registry_starts_without_keys() {
    let registry: Registry<u32> = Registry::new();
    assert_eq!(registry.get(TypeKey(0)).err(), Some(Error::UnknownType));
}

#[test]
fn bind_allocates_slots_in_order() {
    let mut registry: Registry<u32> = Registry::new();
    let first = registry.bind(TypeKey(40));
    let second = registry.bind(TypeKey(41));
    assert_eq!((first.key(), first.slot()), (TypeKey(40), 0));
    assert_eq!((second.key(), second.slot()), (TypeKey(41), 1));
    let found = registry.get(TypeKey(41)).unwrap();
    assert_eq!((found.key(), found.slot()), (TypeKey(41), 1));
    assert_eq!(found.read(&registry), Err(Error::NotReady));
}

#[test]
fn rebinding_a_key_orphans_its_slot() {
    let mut registry: Registry<u32> = Registry::new();
    let old = registry.bind(TypeKey(9));
    let new = registry.bind(TypeKey(9));
    assert_eq!(old.slot(), 0);
    assert_eq!(new.slot(), 1);
    assert_eq!(registry.get(TypeKey(9)).unwrap().slot(), 1);
    assert_eq!(registry.construct(&new, Ok(5)), Ok(()));
    assert_eq!(old.read(&registry), Err(Error::NotReady));
    assert_eq!(new.read(&registry), Ok(&5));
}

#[test]
fn construct_fills_the_slot_of_the_handle() {
    let mut registry: Registry<u32> = Registry::new();
    let a = registry.bind(TypeKey(1));
    let b = registry.bind(TypeKey(2));
    assert_eq!(registry.construct(&b, Ok(22)), Ok(()));
    assert_eq!(a.read(&registry), Err(Error::NotReady));
    assert_eq!(b.read(&registry), Ok(&22));
}

#[test]
fn construct_reports_a_failed_factory() {
    let mut registry: Registry<u32> = Registry::new();
    let a = registry.bind(TypeKey(1));
    assert_eq!(registry.construct(&a, Err(Error::UnknownType)), Err(Error::FactoryFailed));
    assert_eq!(a.read(&registry), Err(Error::NotReady));
    assert_eq!(registry.construct(&a, Ok(3)), Ok(()));
    assert_eq!(a.read(&registry), Ok(&3));
}

#[test]
fn construct_rejects_a_second_value() {
    let mut registry: Registry<u32> = Registry::new();
    let a = registry.bind(TypeKey(1));
    assert_eq!(registry.construct(&a, Ok(3)), Ok(()));
    assert_eq!(registry.construct(&a, Ok(4)), Err(Error::AlreadyFilled));
    assert_eq!(a.read(&registry), Ok(&3));
}

fn foreign_handle() -> Dep<u32> {
    let mut other: Registry<u32> = Registry::new();
    other.bind(TypeKey(1));
    other.bind(TypeKey(2))
}

#[test]
fn handle_without_a_slot_is_unknown() {
    let mut registry: Registry<u32> = Registry::new();
    registry.bind(TypeKey(1));
    let stray = foreign_handle();
    assert_eq!(stray.slot(), 1);
    assert_eq!(stray.read(&registry), Err(Error::UnknownType));
    assert_eq!(registry.construct(&stray, Ok(1)), Err(Error::UnknownType));
    assert_eq!(registry.initialize(&stray, Ok(())), Err(Error::UnknownType));
}

#[test]
fn initialize_needs_a_constructed_component() {
    let mut registry: Registry<u32> = Registry::new();
    let a = registry.bind(TypeKey(1));
    assert_eq!(registry.initialize(&a, Ok(())), Err(Error::NotReady));
    assert_eq!(registry.construct(&a, Ok(3)), Ok(()));
    assert_eq!(registry.initialize(&a, Ok(())), Ok(()));
    assert_eq!(a.read(&registry), Ok(&3));
}

#[test]
fn initialize_reports_a_failed_hook() {
    let mut registry: Registry<u32> = Registry::new();
    let a = registry.bind(TypeKey(1));
    assert_eq!(registry.construct(&a, Ok(3)), Ok(()));
    assert_eq!(registry.initialize(&a, Err(Error::NotReady)), Err(Error::FactoryFailed));
    assert_eq!(a.read(&registry), Ok(&3));
}

#[test]
fn thunk_builds_with_its_factory() {
    let mut registry: Registry<u32> = Registry::new();
    let a = registry.bind(TypeKey(1));
    let b = registry.bind(TypeKey(2));
    assert_eq!(registry.construct(&a, Ok(20)), Ok(()));

    let thunk = Thunk::new(b, move |registry: &Registry<u32>| Ok(*a.read(registry)? + 1));
    assert_eq!((thunk.dep().key(), thunk.dep().slot()), (TypeKey(2), 1));
    let built = thunk.build(&registry);
    assert_eq!(built, Ok(21));
    assert_eq!(registry.construct(&thunk.dep(), built), Ok(()));
    assert_eq!(b.read(&registry), Ok(&21));
}

#[test]
fn thunk_hands_back_the_failure_of_its_factory() {
    let mut registry: Registry<u32> = Registry::new();
    let a = registry.bind(TypeKey(1));
    let thunk = Thunk::new(a, |registry: &Registry<u32>| {
        Ok(*registry.get(TypeKey(2))?.read(registry)?)
    });
    assert_eq!(thunk.build(&registry), Err(Error::UnknownType));
    let b = registry.bind(TypeKey(2));
    assert_eq!(thunk.build(&registry), Err(Error::NotReady));
    assert_eq!(registry.construct(&b, Ok(4)), Ok(()));
    assert_eq!(thunk.build(&registry), Ok(4));
}
