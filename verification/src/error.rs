use vstd::prelude::*;

verus! {

/// What can go wrong while wiring a component graph.
#[derive(Clone, Copy, Debug, PartialEq, Eq, Structural)]
pub enum Error {
    /// A handle was asked for under a key that has no registration.
    UnknownType,
    /// A handle was read before its slot was filled.
    NotReady,
    /// A slot that already holds a value was filled again.
    AlreadyFilled,
    /// A factory or a ready-hook reported a failure.
    FactoryFailed,
}

} // verus!
