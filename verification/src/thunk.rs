use vstd::prelude::*;
use crate::error::Error;
use crate::registry::{Dep, Registry, RegistryView};

verus! {

/// Whether `getter`, run against a registry with the content `registry`, can
/// return `built`.
pub open spec fn factory_returns<T, F: Fn(&Registry<T>) -> Result<T, Error>>(
    getter: F,
    registry: RegistryView<T>,
    built: Result<T, Error>,
) -> bool {
    exists|seen: Registry<T>|
        seen@ == registry && #[trigger] call_ensures(getter, (&seen,), built)
}

/// Whether `getter` may be called on every well-formed registry.
pub open spec fn factory_total<T, F: Fn(&Registry<T>) -> Result<T, Error>>(getter: F) -> bool {
    forall|seen: &Registry<T>| seen.wf() ==> #[trigger] call_requires(getter, (seen,))
}

/// A factory stored behind a uniform interface.
trait Factory<T> {
    spec fn total(&self) -> bool;

    spec fn produces(&self, registry: RegistryView<T>, built: Result<T, Error>) -> bool;

    fn build(&self, registry: &Registry<T>) -> (built: Result<T, Error>)
        requires
            self.total(),
            registry.wf(),
        ensures
            self.produces(registry@, built),
    ;
}

/// A factory given as a closure.
struct FromFn<F> {
    getter: F,
}

impl<T, F: Fn(&Registry<T>) -> Result<T, Error>> Factory<T> for FromFn<F> {
    spec fn total(&self) -> bool {
        factory_total(self.getter)
    }

    spec fn produces(&self, registry: RegistryView<T>, built: Result<T, Error>) -> bool {
        factory_returns(self.getter, registry, built)
    }

    fn build(&self, registry: &Registry<T>) -> (built: Result<T, Error>) {
        (self.getter)(registry)
    }
}

/// A construction thunk: the factory of one registration and the handle
/// onto the slot it is to fill.
#[verifier::reject_recursive_types(T)]
pub struct Thunk<T> {
    dep: Dep<T>,
    factory: Box<dyn Factory<T>>,
}

impl<T> Thunk<T> {
    pub closed spec fn spec_dep(&self) -> Dep<T> {
        self.dep
    }

    /// Whether the factory may be called on every well-formed registry.
    pub closed spec fn total(&self) -> bool {
        self.factory.total()
    }

    /// Whether the factory, run against a registry with the content
    /// `registry`, can return `built`.
    pub closed spec fn yields(&self, registry: RegistryView<T>, built: Result<T, Error>) -> bool {
        self.factory.produces(registry, built)
    }

    /// A thunk that fills the slot behind `dep` with what `getter` builds.
    pub fn new<F: Fn(&Registry<T>) -> Result<T, Error> + 'static>(dep: Dep<T>, getter: F) -> (thunk:
        Self) where T: 'static
        requires
            factory_total(getter),
        ensures
            thunk.dep() == dep,
            thunk.total(),
            forall|registry: RegistryView<T>, built: Result<T, Error>| #[trigger]
                thunk.yields(registry, built) == factory_returns(getter, registry, built),
    {
        Thunk { dep, factory: Box::new(FromFn { getter }) }
    }

    /// The handle onto the slot that this thunk fills.
    #[verifier::when_used_as_spec(spec_dep)]
    pub fn dep(&self) -> (dep: Dep<T>)
        ensures
            dep == self.dep(),
    {
        self.dep
    }

    /// Runs the factory against `registry` and hands back what it built.
    pub fn build(&self, registry: &Registry<T>) -> (built: Result<T, Error>)
        requires
            self.total(),
            registry.wf(),
        ensures
            self.yields(registry@, built),
    {
        self.factory.build(registry)
    }
}

} // verus!
