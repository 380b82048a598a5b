use vstd::prelude::*;
use crate::error::Error;
use crate::registry::{Registry, RegistryView};

verus! {

/// A component that a container can build and wire.
pub trait Autowirable: Sized + 'static {
    /// The ready-hook: runs once, after every registered component has been
    /// constructed, so it may read through any handle the component holds.
    /// The provided hook does nothing and succeeds; a hook written in its
    /// place decides its own outcome.
    fn post_init(&self, registry: &Registry<Self>) -> (outcome: Result<(), Error>)
        requires
            registry.wf(),
            registry@.complete(),
        default_ensures
            outcome == Ok::<(), Error>(()),
    {
        Ok(())
    }
}

/// Whether the ready-hook of `value`, run against a registry with the content
/// `registry`, can return `outcome`.
pub open spec fn hook_returns<T: Autowirable>(
    value: T,
    registry: RegistryView<T>,
    outcome: Result<(), Error>,
) -> bool {
    exists|seen: Registry<T>|
        seen@ == registry && #[trigger] call_ensures(T::post_init, (&value, &seen), outcome)
}

} // verus!
